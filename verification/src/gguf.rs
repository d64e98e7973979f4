//! Minimal GGUF v3 reader — enough to inventory and repack
//! dynamic-quant models into `.llmpk` packs.
//!
//! Format: magic "GGUF", u32 version, u64 tensor_count, u64 kv_count,
//! then KV pairs, then tensor infos (name, dims, ggml type, offset),
//! then aligned tensor data. Multi-file models repeat the header per
//! shard with `split.*` KVs.

use crate::bytes::{law_le_bytes_of_value, le_value, lemma_span_values, read_le};
use crate::convert::{contains_text, occurs};
use crate::st::{keyed, sorted_names};
use crate::table::{lookup, put, table_map};
use crate::text::{
    chars_of, decimal, decimal_string, digit_value, has_prefix, parse_unsigned, parsed_unsigned,
    same_text, starts_with, string_of,
};
use vstd::prelude::*;
use vstd::string::*;

verus! {

pub const GGUF_MAGIC: u32 = 0x4655_4747;

/// GGML tensor types we care about (llama.cpp ggml.h numbering).
#[derive(Debug, Clone, Copy, PartialEq, Eq, Structural)]
pub enum GgmlType {
    F32,
    F16,
    BF16,
    Q8_0,
    Q2K,
    Q3K,
    Q4K,
    Q5K,
    Q6K,
    Other(u32),
}

impl GgmlType {
    /// The type with number `v`.
    pub open spec fn numbered(v: u32) -> GgmlType {
        match v {
            0 => GgmlType::F32,
            1 => GgmlType::F16,
            8 => GgmlType::Q8_0,
            10 => GgmlType::Q2K,
            11 => GgmlType::Q3K,
            12 => GgmlType::Q4K,
            13 => GgmlType::Q5K,
            14 => GgmlType::Q6K,
            30 => GgmlType::BF16,
            _ => GgmlType::Other(v),
        }
    }

    /// Values per block and bytes per block.
    pub open spec fn block(self) -> Option<(usize, usize)> {
        match self {
            GgmlType::F32 => Some((1, 4)),
            GgmlType::F16 => Some((1, 2)),
            GgmlType::BF16 => Some((1, 2)),
            GgmlType::Q8_0 => Some((32, 34)),
            GgmlType::Q2K => Some((256, 84)),
            GgmlType::Q3K => Some((256, 110)),
            GgmlType::Q4K => Some((256, 144)),
            GgmlType::Q5K => Some((256, 176)),
            GgmlType::Q6K => Some((256, 210)),
            GgmlType::Other(_) => None,
        }
    }

    /// Bytes of a row of `cols` values, where those are whole blocks.
    pub open spec fn row_size(self, cols: nat) -> Option<nat> {
        match self.block() {
            Some((vals, bytes)) => if cols % (vals as nat) == 0 {
                Some(cols / (vals as nat) * (bytes as nat))
            } else {
                None
            },
            None => None,
        }
    }

    pub fn from_u32(v: u32) -> (t: Self)
        ensures
            t == GgmlType::numbered(v),
    {
        match v {
            0 => GgmlType::F32,
            1 => GgmlType::F16,
            8 => GgmlType::Q8_0,
            10 => GgmlType::Q2K,
            11 => GgmlType::Q3K,
            12 => GgmlType::Q4K,
            13 => GgmlType::Q5K,
            14 => GgmlType::Q6K,
            30 => GgmlType::BF16,
            other => GgmlType::Other(other),
        }
    }

    /// (values per block, bytes per block); None for unknown types.
    pub fn block_layout(self) -> (layout: Option<(usize, usize)>)
        ensures
            layout == self.block(),
    {
        match self {
            GgmlType::F32 => Some((1, 4)),
            GgmlType::F16 => Some((1, 2)),
            GgmlType::BF16 => Some((1, 2)),
            GgmlType::Q8_0 => Some((32, 34)),
            GgmlType::Q2K => Some((256, 84)),
            GgmlType::Q3K => Some((256, 110)),
            GgmlType::Q4K => Some((256, 144)),
            GgmlType::Q5K => Some((256, 176)),
            GgmlType::Q6K => Some((256, 210)),
            GgmlType::Other(_) => None,
        }
    }

    /// Bytes of a row of `cols` values; None for unknown types and for rows
    /// that are not whole blocks.
    pub fn row_bytes(self, cols: u64) -> (n: Option<u64>)
        requires
            self.row_size(cols as nat) matches Some(n) ==> n <= u64::MAX,
        ensures
            match n {
                Some(n) => self.row_size(cols as nat) == Some(n as nat),
                None => self.row_size(cols as nat) is None,
            },
    {
        match self.block_layout() {
            Some((vals, bytes)) => if cols % (vals as u64) != 0 {
                None
            } else {
                Some(cols / (vals as u64) * (bytes as u64))
            },
            None => None,
        }
    }
}

#[derive(Debug, Clone)]
pub struct GgufTensor {
    pub file: usize,
    /// Dims in ggml order (fastest-varying first): [cols, rows, experts?].
    pub dims: Vec<u64>,
    pub ty: GgmlType,
    /// Absolute byte offset within its file.
    pub abs_offset: u64,
}

/// A tensor, mathematically.
pub struct GgufView {
    pub file: nat,
    pub dims: Seq<u64>,
    pub ty: GgmlType,
    pub abs_offset: nat,
}

impl GgufTensor {
    pub open spec fn view(self) -> GgufView {
        GgufView {
            file: self.file as nat,
            dims: self.dims@,
            ty: self.ty,
            abs_offset: self.abs_offset as nat,
        }
    }

    /// Where byte `rel` of the tensor's data is in its file; `None` beyond any
    /// file.
    pub fn offset_of(&self, rel: u64) -> (at: Option<u64>)
        ensures
            match at {
                Some(n) => n == self@.abs_offset + rel,
                None => self@.abs_offset + rel > u64::MAX,
            },
    {
        self.abs_offset.checked_add(rel)
    }
}

/// What is wrong with a shard.
#[derive(Debug, Clone, Copy, PartialEq, Eq, Structural)]
pub enum GgufError {
    /// The header ends early.
    Truncated,
    /// The file does not start with the magic.
    NotGguf,
    /// The file is of another format version.
    UnsupportedVersion(u32),
    /// A value is of a type that there is not.
    UnknownType(u32),
    /// The shard asks for an alignment of zero.
    ZeroAlignment,
    /// A tensor lies beyond any file.
    OffsetOverflow,
}

/// The text that `String::from_utf8_lossy` makes of bytes.
pub uninterp spec fn lossy_text(bytes: Seq<u8>) -> Seq<char>;

/// `String::from_utf8_lossy`: the text that valid UTF-8 encodes; of other
/// bytes the text is only named.
#[verifier::external_body]
fn text_lossy(bytes: &[u8]) -> (s: String)
    ensures
        s@ == lossy_text(bytes@),
        vstd::utf8::valid_utf8(bytes@) ==> s@ == vstd::utf8::decode_utf8(bytes@),
{
    String::from_utf8_lossy(bytes).into_owned()
}

/// The number in the `k` bytes at `pos`, and the position behind it.
pub open spec fn number_at(buf: Seq<u8>, pos: nat, k: nat) -> Result<(nat, nat), GgufError> {
    if pos + k > buf.len() {
        Err(GgufError::Truncated)
    } else {
        Ok((le_value(buf.subrange(pos as int, (pos + k) as int)), pos + k))
    }
}

/// The text at `pos`, its length in front, and the position behind it.
pub open spec fn text_at(buf: Seq<u8>, pos: nat) -> Result<(Seq<char>, nat), GgufError> {
    match number_at(buf, pos, 8) {
        Err(e) => Err(e),
        Ok((n, at)) => if at + n > buf.len() {
            Err(GgufError::Truncated)
        } else {
            Ok((lossy_text(buf.subrange(at as int, (at + n) as int)), at + n))
        },
    }
}

/// A value of type `ty` at `pos`: its text, where it is a number, a truth
/// value or a text, and the position behind it.
pub open spec fn value_at(buf: Seq<u8>, pos: nat, ty: nat) -> Result<
    (Option<Seq<char>>, nat),
    GgufError,
>
    decreases buf.len() - pos, 0nat,
{
    if ty == 0 || ty == 1 || ty == 2 || ty == 3 || ty == 6 || ty == 12 {
        let k: nat = if ty <= 1 {
            1
        } else if ty <= 3 {
            2
        } else if ty == 6 {
            4
        } else {
            8
        };
        if pos + k > buf.len() {
            Err(GgufError::Truncated)
        } else {
            Ok((None, pos + k))
        }
    } else if ty == 4 || ty == 5 || ty == 10 || ty == 11 {
        match number_at(buf, pos, if ty <= 5 { 4 } else { 8 }) {
            Err(e) => Err(e),
            Ok((n, at)) => Ok((Some(decimal(n)), at)),
        }
    } else if ty == 7 {
        match number_at(buf, pos, 1) {
            Err(e) => Err(e),
            Ok((n, at)) => Ok((Some(if n != 0 { "true"@ } else { "false"@ }), at)),
        }
    } else if ty == 8 {
        match text_at(buf, pos) {
            Err(e) => Err(e),
            Ok((s, at)) => Ok((Some(s), at)),
        }
    } else if ty == 9 {
        if pos + 12 > buf.len() {
            Err(GgufError::Truncated)
        } else {
            let ety = le_value(buf.subrange(pos as int, pos as int + 4));
            let count = le_value(buf.subrange(pos as int + 4, pos as int + 12));
            match items_end(buf, pos + 12, ety, count) {
                Err(e) => Err(e),
                Ok(at) => Ok((None, at)),
            }
        }
    } else {
        Err(GgufError::UnknownType(ty as u32))
    }
}

/// The position behind `count` values of type `ty` at `pos`.
pub open spec fn items_end(buf: Seq<u8>, pos: nat, ty: nat, count: nat) -> Result<nat, GgufError>
    decreases buf.len() - pos, 1nat,
{
    if count == 0 {
        Ok(pos)
    } else {
        match value_at(buf, pos, ty) {
            Err(e) => Err(e),
            Ok((_, at)) => if pos < at <= buf.len() {
                items_end(buf, at, ty, (count - 1) as nat)
            } else {
                Err(GgufError::Truncated)
            },
        }
    }
}

proof fn lemma_value_advances(buf: Seq<u8>, pos: nat, ty: nat)
    requires
        pos <= buf.len(),
    ensures
        value_at(buf, pos, ty) matches Ok((_, at)) ==> pos < at <= buf.len(),
    decreases buf.len() - pos, 0nat,
{
    if ty == 9 && pos + 12 <= buf.len() {
        let ety = le_value(buf.subrange(pos as int, pos as int + 4));
        let count = le_value(buf.subrange(pos as int + 4, pos as int + 12));
        lemma_items_advance(buf, pos + 12, ety, count);
    }
}

proof fn lemma_items_advance(buf: Seq<u8>, pos: nat, ty: nat, count: nat)
    requires
        pos <= buf.len(),
    ensures
        items_end(buf, pos, ty, count) matches Ok(at) ==> pos <= at <= buf.len(),
    decreases buf.len() - pos, 1nat,
{
    if count > 0 {
        lemma_value_advances(buf, pos, ty);
        match value_at(buf, pos, ty) {
            Ok((_, at)) => {
                lemma_items_advance(buf, at, ty, (count - 1) as nat);
            },
            Err(_) => {},
        }
    }
}

/// Reads a header from front to back.
#[derive(Debug)]
struct Cursor<'a> {
    buf: &'a [u8],
    pos: usize,
}

impl<'a> Cursor<'a> {
    spec fn wf(self) -> bool {
        self.pos <= self.buf@.len()
    }

    fn take(&mut self, n: u64) -> (s: Result<&'a [u8], GgufError>)
        requires
            old(self).wf(),
        ensures
            final(self).wf(),
            final(self).buf == old(self).buf,
            match s {
                Ok(s) => {
                    &&& old(self).pos + n <= old(self).buf@.len()
                    &&& final(self).pos == old(self).pos + n
                    &&& s@ == old(self).buf@.subrange(old(self).pos as int, old(self).pos + n)
                },
                Err(e) => {
                    &&& e == GgufError::Truncated
                    &&& old(self).pos + n > old(self).buf@.len()
                },
            },
    {
        let left: usize = self.buf.len() - self.pos;
        if n > left as u64 {
            return Err(GgufError::Truncated);
        }
        let (_, rest) = self.buf.split_at(self.pos);
        let (s, _) = rest.split_at(n as usize);
        assert(s@ =~= self.buf@.subrange(self.pos as int, self.pos + n));
        self.pos = self.pos + n as usize;
        Ok(s)
    }

    fn number(&mut self, k: u64) -> (n: Result<u64, GgufError>)
        requires
            old(self).wf(),
            k <= 8,
        ensures
            final(self).wf(),
            final(self).buf == old(self).buf,
            match n {
                Ok(n) => number_at(old(self).buf@, old(self).pos as nat, k as nat) == Ok::<
                    (nat, nat),
                    GgufError,
                >((n as nat, final(self).pos as nat)),
                Err(e) => number_at(old(self).buf@, old(self).pos as nat, k as nat) == Err::<
                    (nat, nat),
                    GgufError,
                >(e),
            },
    {
        match self.take(k) {
            Ok(s) => {
                assert(s@.subrange(0, k as int) =~= s@);
                Ok(read_le(s, 0, k as usize))
            },
            Err(e) => Err(e),
        }
    }

    fn u32(&mut self) -> (n: Result<u32, GgufError>)
        requires
            old(self).wf(),
        ensures
            final(self).wf(),
            final(self).buf == old(self).buf,
            match n {
                Ok(n) => number_at(old(self).buf@, old(self).pos as nat, 4) == Ok::<
                    (nat, nat),
                    GgufError,
                >((n as nat, final(self).pos as nat)),
                Err(e) => number_at(old(self).buf@, old(self).pos as nat, 4) == Err::<
                    (nat, nat),
                    GgufError,
                >(e),
            },
    {
        let ghost at = self.pos as int;
        match self.number(4) {
            Ok(n) => {
                proof {
                    law_le_bytes_of_value(self.buf@.subrange(at, at + 4));
                    lemma_span_values();
                }
                Ok(n as u32)
            },
            Err(e) => Err(e),
        }
    }

    fn string(&mut self) -> (s: Result<String, GgufError>)
        requires
            old(self).wf(),
        ensures
            final(self).wf(),
            final(self).buf == old(self).buf,
            match s {
                Ok(s) => text_at(old(self).buf@, old(self).pos as nat) == Ok::<
                    (Seq<char>, nat),
                    GgufError,
                >((s@, final(self).pos as nat)),
                Err(e) => text_at(old(self).buf@, old(self).pos as nat) == Err::<
                    (Seq<char>, nat),
                    GgufError,
                >(e),
            },
    {
        let n: u64 = match self.number(8) {
            Ok(n) => n,
            Err(e) => {
                return Err(e);
            },
        };
        match self.take(n) {
            Ok(s) => Ok(text_lossy(s)),
            Err(e) => Err(e),
        }
    }

    fn skip_value(&mut self, ty: u32) -> (v: Result<Option<String>, GgufError>)
        requires
            old(self).wf(),
        ensures
            final(self).wf(),
            final(self).buf == old(self).buf,
            match v {
                Ok(Some(s)) => value_at(old(self).buf@, old(self).pos as nat, ty as nat) == Ok::<
                    (Option<Seq<char>>, nat),
                    GgufError,
                >((Some(s@), final(self).pos as nat)),
                Ok(None) => value_at(old(self).buf@, old(self).pos as nat, ty as nat) == Ok::<
                    (Option<Seq<char>>, nat),
                    GgufError,
                >((None, final(self).pos as nat)),
                Err(e) => value_at(old(self).buf@, old(self).pos as nat, ty as nat) == Err::<
                    (Option<Seq<char>>, nat),
                    GgufError,
                >(e),
            },
        decreases old(self).buf@.len() - old(self).pos,
    {
        if ty == 0 || ty == 1 || ty == 2 || ty == 3 || ty == 6 || ty == 12 {
            let k: u64 = if ty <= 1 {
                1
            } else if ty <= 3 {
                2
            } else if ty == 6 {
                4
            } else {
                8
            };
            match self.take(k) {
                Ok(_) => Ok(None),
                Err(e) => Err(e),
            }
        } else if ty == 4 || ty == 5 || ty == 10 || ty == 11 {
            match self.number(if ty <= 5 { 4 } else { 8 }) {
                Ok(n) => Ok(Some(decimal_string(n))),
                Err(e) => Err(e),
            }
        } else if ty == 7 {
            match self.number(1) {
                Ok(n) => Ok(Some(if n != 0 { "true".to_owned() } else { "false".to_owned() })),
                Err(e) => Err(e),
            }
        } else if ty == 8 {
            match self.string() {
                Ok(s) => Ok(Some(s)),
                Err(e) => Err(e),
            }
        } else if ty == 9 {
            let ghost start = self.pos as nat;
            let ety: u32 = match self.u32() {
                Ok(n) => n,
                Err(e) => {
                    return Err(e);
                },
            };
            let count: u64 = match self.number(8) {
                Ok(n) => n,
                Err(e) => {
                    return Err(e);
                },
            };
            let ghost first = self.pos as nat;
            let mut i: u64 = 0;
            while i < count
                invariant
                    i <= count,
                    self.wf(),
                    self.buf == old(self).buf,
                    start == old(self).pos,
                    start < first <= self.pos,
                    items_end(self.buf@, first, ety as nat, count as nat) == items_end(
                        self.buf@,
                        self.pos as nat,
                        ety as nat,
                        (count - i) as nat,
                    ),
                    ty == 9,
                    start + 12 <= self.buf@.len(),
                    first == start + 12,
                    ety == le_value(self.buf@.subrange(start as int, start as int + 4)),
                    count == le_value(self.buf@.subrange(start as int + 4, start as int + 12)),
                decreases count - i,
            {
                proof {
                    lemma_value_advances(self.buf@, self.pos as nat, ety as nat);
                }
                match self.skip_value(ety) {
                    Ok(_) => {},
                    Err(e) => {
                        return Err(e);
                    },
                }
                i += 1;
            }
            Ok(None)
        } else {
            Err(GgufError::UnknownType(ty))
        }
    }
}

/// What the key-value section has said up to some position.
pub struct KvState {
    pub pos: nat,
    pub alignment: nat,
    pub meta: Map<Seq<char>, Seq<char>>,
}

/// Keys whose values are kept.
pub open spec fn kept_key(key: Seq<char>) -> bool {
    starts_with(key, "general."@) || occurs(key, "expert"@)
}

/// One key-value pair: an alignment counts where it is one, and the first
/// shard's kept keys are noted.
pub open spec fn after_kv(buf: Seq<u8>, st: KvState, first: bool) -> Result<KvState, GgufError> {
    match text_at(buf, st.pos) {
        Err(e) => Err(e),
        Ok((key, p1)) => match number_at(buf, p1, 4) {
            Err(e) => Err(e),
            Ok((ty, p2)) => match value_at(buf, p2, ty) {
                Err(e) => Err(e),
                Ok((None, pos)) => Ok(KvState { pos, ..st }),
                Ok((Some(v), pos)) => Ok(
                    KvState {
                        pos,
                        alignment: if key == "general.alignment"@ {
                            match parsed_unsigned(v, u64::MAX as nat) {
                                Some(n) => n,
                                None => 32,
                            }
                        } else {
                            st.alignment
                        },
                        meta: if first && kept_key(key) {
                            st.meta.insert(key, v)
                        } else {
                            st.meta
                        },
                    },
                ),
            },
        },
    }
}

/// The first `n` key-value pairs, from `pos` on.
pub open spec fn after_kvs(buf: Seq<u8>, pos: nat, first: bool, n: nat) -> Result<
    KvState,
    GgufError,
>
    decreases n,
{
    if n == 0 {
        Ok(KvState { pos, alignment: 32, meta: Map::empty() })
    } else {
        match after_kvs(buf, pos, first, (n - 1) as nat) {
            Err(e) => Err(e),
            Ok(st) => after_kv(buf, st, first),
        }
    }
}

/// A tensor info; the offset counts from the start of the data.
pub struct InfoView {
    pub name: Seq<char>,
    pub dims: Seq<u64>,
    pub ty: GgmlType,
    pub offset: nat,
}

/// `n` dimensions at `pos`.
pub open spec fn dims_from(buf: Seq<u8>, pos: nat, n: nat) -> Result<(Seq<u64>, nat), GgufError>
    decreases n,
{
    if n == 0 {
        Ok((Seq::empty(), pos))
    } else {
        match dims_from(buf, pos, (n - 1) as nat) {
            Err(e) => Err(e),
            Ok((dims, at)) => match number_at(buf, at, 8) {
                Err(e) => Err(e),
                Ok((d, end)) => Ok((dims.push(d as u64), end)),
            },
        }
    }
}

/// The tensor info at `pos`.
pub open spec fn info_from(buf: Seq<u8>, pos: nat) -> Result<(InfoView, nat), GgufError> {
    match text_at(buf, pos) {
        Err(e) => Err(e),
        Ok((name, p1)) => match number_at(buf, p1, 4) {
            Err(e) => Err(e),
            Ok((n_dims, p2)) => match dims_from(buf, p2, n_dims) {
                Err(e) => Err(e),
                Ok((dims, p3)) => match number_at(buf, p3, 4) {
                    Err(e) => Err(e),
                    Ok((ty, p4)) => match number_at(buf, p4, 8) {
                        Err(e) => Err(e),
                        Ok((offset, end)) => Ok(
                            (
                                InfoView { name, dims, ty: GgmlType::numbered(ty as u32), offset },
                                end,
                            ),
                        ),
                    },
                },
            },
        },
    }
}

/// `n` tensor infos from `pos` on.
pub open spec fn infos_from(buf: Seq<u8>, pos: nat, n: nat) -> Result<
    (Seq<InfoView>, nat),
    GgufError,
>
    decreases n,
{
    if n == 0 {
        Ok((Seq::empty(), pos))
    } else {
        match infos_from(buf, pos, (n - 1) as nat) {
            Err(e) => Err(e),
            Ok((infos, at)) => match info_from(buf, at) {
                Err(e) => Err(e),
                Ok((info, end)) => Ok((infos.push(info), end)),
            },
        }
    }
}

/// `pos` rounded up to a multiple of `alignment`.
pub open spec fn rounded_up(pos: nat, alignment: nat) -> nat {
    (pos + alignment - 1) as nat / alignment * alignment
}

/// What a shard's header says: the kept keys, and the tensors with their
/// absolute offsets.
pub struct ShardView {
    pub meta: Map<Seq<char>, Seq<char>>,
    pub infos: Seq<InfoView>,
    pub data_start: nat,
}

/// The shard whose header is `buf`; `first` for a model's first shard.
pub open spec fn shard_view(buf: Seq<u8>, first: bool) -> Result<ShardView, GgufError> {
    match number_at(buf, 0, 4) {
        Err(e) => Err(e),
        Ok((magic, _)) => if magic != GGUF_MAGIC {
            Err(GgufError::NotGguf)
        } else {
            match number_at(buf, 4, 4) {
                Err(e) => Err(e),
                Ok((version, _)) => if version != 2 && version != 3 {
                    Err(GgufError::UnsupportedVersion(version as u32))
                } else {
                    match (number_at(buf, 8, 8), number_at(buf, 16, 8)) {
                        (Ok((tensors, _)), Ok((kvs, _))) => match after_kvs(buf, 24, first, kvs) {
                            Err(e) => Err(e),
                            Ok(st) => match infos_from(buf, st.pos, tensors) {
                                Err(e) => Err(e),
                                Ok((infos, end)) => shard_of(st, infos, end),
                            },
                        },
                        _ => Err(GgufError::Truncated),
                    }
                },
            }
        },
    }
}

/// The shard with these key-values and tensor infos, whose header ends at
/// `end`.
pub open spec fn shard_of(st: KvState, infos: Seq<InfoView>, end: nat) -> Result<
    ShardView,
    GgufError,
> {
    if st.alignment == 0 {
        Err(GgufError::ZeroAlignment)
    } else {
        let data_start = rounded_up(end, st.alignment);
        if data_start > u64::MAX || exists|i: int|
            #![trigger infos[i]]
            0 <= i < infos.len() && data_start + infos[i].offset > u64::MAX {
            Err(GgufError::OffsetOverflow)
        } else {
            Ok(ShardView { meta: st.meta, infos, data_start })
        }
    }
}

#[derive(Debug)]
struct Info {
    name: String,
    dims: Vec<u64>,
    ty: GgmlType,
    offset: u64,
}

impl Info {
    spec fn view(self) -> InfoView {
        InfoView {
            name: self.name@,
            dims: self.dims@,
            ty: self.ty,
            offset: self.offset as nat,
        }
    }
}

impl<'a> Cursor<'a> {
    fn info(&mut self) -> (info: Result<Info, GgufError>)
        requires
            old(self).wf(),
        ensures
            final(self).wf(),
            final(self).buf == old(self).buf,
            match info {
                Ok(info) => info_from(old(self).buf@, old(self).pos as nat) == Ok::<
                    (InfoView, nat),
                    GgufError,
                >((info@, final(self).pos as nat)),
                Err(e) => info_from(old(self).buf@, old(self).pos as nat) == Err::<
                    (InfoView, nat),
                    GgufError,
                >(e),
            },
    {
        let name: String = match self.string() {
            Ok(s) => s,
            Err(e) => {
                return Err(e);
            },
        };
        let n_dims: u32 = match self.u32() {
            Ok(n) => n,
            Err(e) => {
                return Err(e);
            },
        };
        let mut dims: Vec<u64> = Vec::new();
        let ghost p2 = self.pos as nat;
        let mut i: u32 = 0;
        while i < n_dims
            invariant
                i <= n_dims,
                self.wf(),
                self.buf == old(self).buf,
                dims_from(self.buf@, p2, i as nat) == Ok::<(Seq<u64>, nat), GgufError>(
                    (dims@, self.pos as nat),
                ),
                text_at(old(self).buf@, old(self).pos as nat) is Ok,
                number_at(
                    old(self).buf@,
                    text_at(old(self).buf@, old(self).pos as nat)->Ok_0.1,
                    4,
                ) == Ok::<(nat, nat), GgufError>((n_dims as nat, p2)),
            decreases n_dims - i,
        {
            match self.number(8) {
                Ok(d) => dims.push(d),
                Err(e) => {
                    proof {
                        lemma_dims_fault(self.buf@, p2, (i + 1) as nat, n_dims as nat);
                    }
                    return Err(e);
                },
            }
            i += 1;
        }
        let ghost p3 = self.pos as nat;
        let ty: u32 = match self.u32() {
            Ok(n) => n,
            Err(e) => {
                return Err(e);
            },
        };
        let offset: u64 = match self.number(8) {
            Ok(n) => n,
            Err(e) => {
                return Err(e);
            },
        };
        Ok(Info { name, dims, ty: GgmlType::from_u32(ty), offset })
    }
}

proof fn lemma_dims_fault(buf: Seq<u8>, pos: nat, k: nat, n: nat)
    requires
        k <= n,
        dims_from(buf, pos, k) is Err,
    ensures
        dims_from(buf, pos, n) == dims_from(buf, pos, k),
    decreases n,
{
    if k < n {
        lemma_dims_fault(buf, pos, k, (n - 1) as nat);
    }
}

proof fn lemma_infos_fault(buf: Seq<u8>, pos: nat, k: nat, n: nat)
    requires
        k <= n,
        infos_from(buf, pos, k) is Err,
    ensures
        infos_from(buf, pos, n) == infos_from(buf, pos, k),
    decreases n,
{
    if k < n {
        lemma_infos_fault(buf, pos, k, (n - 1) as nat);
    }
}

proof fn lemma_kvs_fault(buf: Seq<u8>, pos: nat, first: bool, k: nat, n: nat)
    requires
        k <= n,
        after_kvs(buf, pos, first, k) is Err,
    ensures
        after_kvs(buf, pos, first, n) == after_kvs(buf, pos, first, k),
    decreases n,
{
    if k < n {
        lemma_kvs_fault(buf, pos, first, k, (n - 1) as nat);
    }
}

/// The texts of a table of texts.
pub open spec fn text_map(table: Seq<(String, String)>) -> Map<Seq<char>, Seq<char>> {
    table_map(table).map_values(|s: String| s@)
}

/// The tensors of a table of tensors.
pub open spec fn tensor_map(table: Seq<(String, GgufTensor)>) -> Map<Seq<char>, GgufView> {
    table_map(table).map_values(|t: GgufTensor| t@)
}

/// The tensors after the first `n` of a shard's have been added to `tensors`.
pub open spec fn with_infos(
    tensors: Map<Seq<char>, GgufView>,
    shard: ShardView,
    file: nat,
    n: nat,
) -> Map<Seq<char>, GgufView>
    decreases n,
{
    if n == 0 {
        tensors
    } else {
        let info = shard.infos[n - 1];
        with_infos(tensors, shard, file, (n - 1) as nat).insert(
            info.name,
            GgufView {
                file,
                dims: info.dims,
                ty: info.ty,
                abs_offset: shard.data_start + info.offset,
            },
        )
    }
}

/// A GGUF model: the tensors of its shards and selected metadata of the first
/// (texts, truth values, and integers of 32 and 64 bits, stringified).
#[derive(Debug)]
pub struct Gguf {
    files: usize,
    tensors: Vec<(String, GgufTensor)>,
    meta: Vec<(String, String)>,
}

fn parse_kvs<'a>(c: &mut Cursor<'a>, first: bool, n: u64) -> (r: Result<
    (u64, Vec<(String, String)>),
    GgufError,
>)
    requires
        old(c).wf(),
    ensures
        final(c).wf(),
        final(c).buf == old(c).buf,
        match r {
            Ok((alignment, meta)) => {
                &&& sorted_names(keyed(meta@))
                &&& after_kvs(old(c).buf@, old(c).pos as nat, first, n as nat) == Ok::<
                    KvState,
                    GgufError,
                >(
                    KvState {
                        pos: final(c).pos as nat,
                        alignment: alignment as nat,
                        meta: text_map(meta@),
                    },
                )
            },
            Err(e) => after_kvs(old(c).buf@, old(c).pos as nat, first, n as nat) == Err::<
                KvState,
                GgufError,
            >(e),
        },
{
    let ghost start = c.pos as nat;
    let mut alignment: u64 = 32;
    let mut meta: Vec<(String, String)> = Vec::new();
    let general: Vec<char> = chars_of("general.");
    let expert: Vec<char> = chars_of("expert");
    let mut i: u64 = 0;
    assert(text_map(meta@) =~= Map::<Seq<char>, Seq<char>>::empty());
    while i < n
        invariant
            i <= n,
            c.wf(),
            c.buf == old(c).buf,
            start == old(c).pos,
            general@ == "general."@,
            expert@ == "expert"@,
            sorted_names(keyed(meta@)),
            after_kvs(c.buf@, start, first, i as nat) == Ok::<KvState, GgufError>(
                KvState {
                    pos: c.pos as nat,
                    alignment: alignment as nat,
                    meta: text_map(meta@),
                },
            ),
        decreases n - i,
    {
        let ghost st = KvState {
            pos: c.pos as nat,
            alignment: alignment as nat,
            meta: text_map(meta@),
        };
        proof {
            if after_kv(c.buf@, st, first) is Err {
                lemma_kvs_fault(c.buf@, start, first, (i + 1) as nat, n as nat);
            }
        }
        let key: String = match c.string() {
            Ok(s) => s,
            Err(e) => {
                return Err(e);
            },
        };
        let ty: u32 = match c.u32() {
            Ok(t) => t,
            Err(e) => {
                return Err(e);
            },
        };
        let val: Option<String> = match c.skip_value(ty) {
            Ok(v) => v,
            Err(e) => {
                return Err(e);
            },
        };
        if let Some(v) = val {
            if same_text(key.as_str(), "general.alignment") {
                let chars: Vec<char> = chars_of(v.as_str());
                alignment = match parse_unsigned(chars.as_slice(), u64::MAX) {
                    Some(a) => a,
                    None => 32,
                };
            }
            let chars: Vec<char> = chars_of(key.as_str());
            if first && (has_prefix(chars.as_slice(), general.as_slice()) || contains_text(
                chars.as_slice(),
                expert.as_slice(),
            )) {
                let ghost before = meta@;
                let ghost k = key@;
                let ghost value = v;
                put(&mut meta, key, v);
                proof {
                    assert(text_map(meta@) =~= text_map(before).insert(k, value@));
                }
            }
        }
        i += 1;
    }
    Ok((alignment, meta))
}

fn parse_infos<'a>(c: &mut Cursor<'a>, n: u64) -> (r: Result<Vec<Info>, GgufError>)
    requires
        old(c).wf(),
    ensures
        final(c).wf(),
        final(c).buf == old(c).buf,
        match r {
            Ok(infos) => infos_from(old(c).buf@, old(c).pos as nat, n as nat) == Ok::<
                (Seq<InfoView>, nat),
                GgufError,
            >((info_views(infos@), final(c).pos as nat)),
            Err(e) => infos_from(old(c).buf@, old(c).pos as nat, n as nat) == Err::<
                (Seq<InfoView>, nat),
                GgufError,
            >(e),
        },
{
    let ghost start = c.pos as nat;
    let mut infos: Vec<Info> = Vec::new();
    let mut i: u64 = 0;
    assert(info_views(infos@) =~= Seq::<InfoView>::empty());
    while i < n
        invariant
            i <= n,
            c.wf(),
            c.buf == old(c).buf,
            start == old(c).pos,
            infos_from(c.buf@, start, i as nat) == Ok::<(Seq<InfoView>, nat), GgufError>(
                (info_views(infos@), c.pos as nat),
            ),
        decreases n - i,
    {
        match c.info() {
            Ok(info) => {
                let ghost before = infos@;
                infos.push(info);
                assert(info_views(infos@) =~= info_views(before).push(info@));
            },
            Err(e) => {
                proof {
                    lemma_infos_fault(c.buf@, start, (i + 1) as nat, n as nat);
                }
                return Err(e);
            },
        }
        i += 1;
    }
    Ok(infos)
}

spec fn info_views(infos: Seq<Info>) -> Seq<InfoView> {
    Seq::new(infos.len(), |i: int| infos[i]@)
}

impl Gguf {
    /// How many shards have been added.
    pub closed spec fn spec_files(self) -> nat {
        self.files as nat
    }

    pub closed spec fn tensors(self) -> Map<Seq<char>, GgufView> {
        tensor_map(self.tensors@)
    }

    pub closed spec fn meta(self) -> Map<Seq<char>, Seq<char>> {
        text_map(self.meta@)
    }

    pub closed spec fn wf(self) -> bool {
        sorted_names(keyed(self.tensors@)) && sorted_names(keyed(self.meta@))
    }

    /// No shard yet.
    pub fn new() -> (g: Self)
        ensures
            g.wf(),
            g.spec_files() == 0,
            g.tensors() == Map::<Seq<char>, GgufView>::empty(),
            g.meta() == Map::<Seq<char>, Seq<char>>::empty(),
    {
        let g = Gguf { files: 0, tensors: Vec::new(), meta: Vec::new() };
        assert(g.tensors() =~= Map::<Seq<char>, GgufView>::empty());
        assert(g.meta() =~= Map::<Seq<char>, Seq<char>>::empty());
        g
    }

    /// Adds the shard whose header is at the front of `head`. Where a name
    /// occurs again, the later tensor has it.
    pub fn add_shard(&mut self, head: &[u8]) -> (r: Result<(), GgufError>)
        requires
            old(self).wf(),
            old(self).spec_files() < usize::MAX,
        ensures
            final(self).wf(),
            match shard_view(head@, old(self).spec_files() == 0) {
                Ok(shard) => {
                    &&& r is Ok
                    &&& final(self).spec_files() == old(self).spec_files() + 1
                    &&& final(self).meta() == (if old(self).spec_files() == 0 {
                        shard.meta
                    } else {
                        old(self).meta()
                    })
                    &&& final(self).tensors() == with_infos(
                        old(self).tensors(),
                        shard,
                        old(self).spec_files(),
                        shard.infos.len(),
                    )
                },
                Err(e) => r == Err::<(), GgufError>(e) && *final(self) == *old(self),
            },
    {
        let first: bool = self.files == 0;
        let mut c = Cursor { buf: head, pos: 0 };
        let magic: u32 = match c.u32() {
            Ok(n) => n,
            Err(e) => {
                return Err(e);
            },
        };
        if magic != GGUF_MAGIC {
            return Err(GgufError::NotGguf);
        }
        let version: u32 = match c.u32() {
            Ok(n) => n,
            Err(e) => {
                return Err(e);
            },
        };
        if version != 2 && version != 3 {
            return Err(GgufError::UnsupportedVersion(version));
        }
        let tensor_count: u64 = match c.number(8) {
            Ok(n) => n,
            Err(e) => {
                return Err(e);
            },
        };
        let kv_count: u64 = match c.number(8) {
            Ok(n) => n,
            Err(e) => {
                return Err(e);
            },
        };
        let (alignment, meta): (u64, Vec<(String, String)>) = match parse_kvs(
            &mut c,
            first,
            kv_count,
        ) {
            Ok(r) => r,
            Err(e) => {
                return Err(e);
            },
        };
        let infos: Vec<Info> = match parse_infos(&mut c, tensor_count) {
            Ok(infos) => infos,
            Err(e) => {
                return Err(e);
            },
        };
        if alignment == 0 {
            return Err(GgufError::ZeroAlignment);
        }
        let ghost st = KvState {
            pos: after_kvs(head@, 24, first, kv_count as nat)->Ok_0.pos,
            alignment: alignment as nat,
            meta: text_map(meta@),
        };
        let ghost views = info_views(infos@);
        assert(shard_view(head@, first) == shard_of(st, views, c.pos as nat));
        let data_start: u64 = match round_up(c.pos as u64, alignment) {
            Some(n) => n,
            None => {
                return Err(GgufError::OffsetOverflow);
            },
        };
        let mut i: usize = 0;
        while i < infos.len()
            invariant
                i <= infos@.len(),
                views == info_views(infos@),
                shard_view(head@, first) == shard_of(st, views, c.pos as nat),
                st.alignment != 0,
                data_start == rounded_up(c.pos as nat, st.alignment),
                *self == *old(self),
                first == (old(self).spec_files() == 0),
                old(self).wf(),
                forall|k: int|
                    #![trigger views[k]]
                    0 <= k < i ==> data_start + views[k].offset <= u64::MAX,
            decreases infos@.len() - i,
        {
            assert(views[i as int] == infos@[i as int]@);
            if infos[i].offset > u64::MAX - data_start {
                return Err(GgufError::OffsetOverflow);
            }
            i += 1;
        }
        let ghost shard = ShardView {
            meta: st.meta,
            infos: views,
            data_start: data_start as nat,
        };
        assert(shard_view(head@, first) == Ok::<ShardView, GgufError>(shard));
        let file: usize = self.files;
        let mut k: usize = 0;
        while k < infos.len()
            invariant
                k <= infos@.len(),
                views == info_views(infos@),
                views == shard.infos,
                data_start == shard.data_start,
                file == old(self).spec_files(),
                self.files == old(self).files,
                self.meta == old(self).meta,
                sorted_names(keyed(self.tensors@)),
                forall|x: int|
                    #![trigger views[x]]
                    0 <= x < infos@.len() ==> data_start + views[x].offset <= u64::MAX,
                self.tensors() == with_infos(old(self).tensors(), shard, file as nat, k as nat),
            decreases infos@.len() - k,
        {
            let info: &Info = &infos[k];
            assert(views[k as int] == info@);
            let dims: Vec<u64> = copy_dims(&info.dims);
            let t = GgufTensor { file, dims, ty: info.ty, abs_offset: data_start + info.offset };
            let ghost before = self.tensors@;
            put(&mut self.tensors, info.name.clone(), t);
            proof {
                assert(self.tensors() =~= tensor_map(before).insert(info.name@, t@));
            }
            k += 1;
        }
        if first {
            self.meta = meta;
        }
        self.files = file + 1;
        Ok(())
    }

    /// The tensor `name`.
    pub fn tensor(&self, name: &str) -> (t: Option<&GgufTensor>)
        requires
            self.wf(),
        ensures
            match t {
                Some(t) => self.tensors().contains_key(name@) && self.tensors()[name@] == t@,
                None => !self.tensors().contains_key(name@),
            },
    {
        lookup(&self.tensors, name)
    }

    /// The value kept under `key`.
    pub fn meta_value(&self, key: &str) -> (v: Option<&String>)
        requires
            self.wf(),
        ensures
            match v {
                Some(v) => self.meta().contains_key(key@) && self.meta()[key@] == v@,
                None => !self.meta().contains_key(key@),
            },
    {
        lookup(&self.meta, key)
    }

    /// Names and tensors, in ascending order of names.
    pub fn tensor_list(&self) -> (list: &Vec<(String, GgufTensor)>)
        requires
            self.wf(),
        ensures
            sorted_names(keyed(list@)),
            tensor_map(list@) == self.tensors(),
    {
        &self.tensors
    }

    /// Kept keys and their values, in ascending order of keys.
    pub fn meta_list(&self) -> (list: &Vec<(String, String)>)
        requires
            self.wf(),
        ensures
            sorted_names(keyed(list@)),
            text_map(list@) == self.meta(),
    {
        &self.meta
    }
}

fn copy_dims(dims: &Vec<u64>) -> (copy: Vec<u64>)
    ensures
        copy@ == dims@,
{
    let mut copy: Vec<u64> = Vec::new();
    let mut i: usize = 0;
    while i < dims.len()
        invariant
            i <= dims@.len(),
            copy@ == dims@.take(i as int),
        decreases dims@.len() - i,
    {
        copy.push(dims[i]);
        i += 1;
        assert(copy@ =~= dims@.take(i as int));
    }
    assert(copy@ =~= dims@);
    copy
}

fn round_up(pos: u64, alignment: u64) -> (up: Option<u64>)
    requires
        alignment > 0,
    ensures
        match up {
            Some(up) => rounded_up(pos as nat, alignment as nat) == up,
            None => rounded_up(pos as nat, alignment as nat) > u64::MAX,
        },
{
    let q: u64 = pos / alignment;
    let r: u64 = pos % alignment;
    proof {
        let a = alignment as int;
        vstd::arithmetic::div_mod::lemma_fundamental_div_mod(pos as int, a);
        if r == 0 {
            assert(pos as int + a - 1 == a * q + (a - 1));
            vstd::arithmetic::div_mod::lemma_fundamental_div_mod_converse(
                pos as int + a - 1,
                a,
                q as int,
                a - 1,
            );
        } else {
            assert(a * (q + 1) == a * q + a) by (nonlinear_arith);
            assert(pos as int + a - 1 == a * (q + 1) + (r - 1));
            vstd::arithmetic::div_mod::lemma_fundamental_div_mod_converse(
                pos as int + a - 1,
                a,
                q as int + 1,
                r - 1,
            );
        }
        assert(q <= pos) by (nonlinear_arith)
            requires
                pos == a * q + r,
                a >= 1,
                r >= 0,
                q >= 0,
        ;
    }
    if r == 0 {
        assert(q * alignment == pos) by (nonlinear_arith)
            requires
                pos == alignment * q + r,
                r == 0,
        ;
        Some(pos)
    } else {
        assert(q < u64::MAX) by (nonlinear_arith)
            requires
                pos == alignment * q + r,
                r > 0,
                alignment >= 1,
                pos <= u64::MAX,
                q >= 0,
        ;
        (q + 1).checked_mul(alignment)
    }
}

/// Whether the inventory lists a tensor as a sample.
pub fn is_sample(name: &str) -> (yes: bool)
    ensures
        yes == ((occurs(name@, "exps"@) && occurs(name@, "blk.4."@)) || starts_with(
            name@,
            "blk.4.attn"@,
        )),
{
    let chars: Vec<char> = chars_of(name);
    let exps: Vec<char> = chars_of("exps");
    let block: Vec<char> = chars_of("blk.4.");
    let attn: Vec<char> = chars_of("blk.4.attn");
    (contains_text(chars.as_slice(), exps.as_slice()) && contains_text(
        chars.as_slice(),
        block.as_slice(),
    )) || has_prefix(chars.as_slice(), attn.as_slice())
}

/// What a first shard's name has in front of the number of shards.
pub open spec fn first_mark() -> Seq<char> {
    "-00001-of-"@
}

/// Position of the first occurrence of `pattern`.
pub open spec fn found_at(s: Seq<char>, pattern: Seq<char>, i: int) -> bool {
    &&& 0 <= i <= s.len()
    &&& starts_with(s.skip(i), pattern)
    &&& forall|k: int| 0 <= k < i ==> !starts_with(#[trigger] s.skip(k), pattern)
}

/// `s` with every occurrence of `pattern`, from the left and without overlap,
/// replaced.
pub open spec fn replaced(s: Seq<char>, pattern: Seq<char>, by: Seq<char>) -> Seq<char>
    decreases s.len(),
{
    if s.len() == 0 || pattern.len() == 0 {
        s
    } else if starts_with(s, pattern) {
        by + replaced(s.skip(pattern.len() as int), pattern, by)
    } else {
        seq![s[0]] + replaced(s.skip(1), pattern, by)
    }
}

/// `n` in decimal with at least five digits.
pub open spec fn five_digits(n: nat) -> Seq<char> {
    let d = decimal(n);
    Seq::new((if d.len() < 5 { 5 - d.len() } else { 0 }) as nat, |i: int| '0') + d
}

/// The name of shard `i` of a model with a shard called `name`, which has
/// `mark` in front of the number of shards.
pub open spec fn sibling_name(name: Seq<char>, mark: Seq<char>, i: nat) -> Seq<char> {
    replaced(name, mark, "-"@ + five_digits(i) + "-of-"@)
}

/// The text in the first five bytes can be cut out.
pub open spec fn readable(rest: Seq<char>) -> bool {
    vstd::utf8::is_char_boundary(vstd::utf8::encode_utf8(rest), 5)
}

/// How many shards the name of a first shard announces in the five bytes
/// behind its mark; one where they are no number.
pub open spec fn announced(rest: Seq<char>) -> nat {
    let five = vstd::utf8::decode_utf8(vstd::utf8::encode_utf8(rest).subrange(0, 5));
    match parsed_unsigned(five, 99_999) {
        Some(n) => n,
        None => 1,
    }
}

/// The five characters from `i` on are digits.
pub open spec fn digits_at(s: Seq<char>, i: int) -> bool {
    forall|k: int| i <= k < i + 5 ==> digit_value(#[trigger] s[k]) is Some
}

/// `-NNNNN-of-TTTTT` stands at `i`.
pub open spec fn numbered(s: Seq<char>, i: int) -> bool {
    &&& 0 <= i
    &&& i + 15 <= s.len()
    &&& s[i] == '-'
    &&& digits_at(s, i + 1)
    &&& s[i + 6] == '-'
    &&& s[i + 7] == 'o'
    &&& s[i + 8] == 'f'
    &&& s[i + 9] == '-'
    &&& digits_at(s, i + 10)
}

/// The first place where `-NNNNN-of-TTTTT` stands.
pub open spec fn numbered_at(s: Seq<char>, i: int) -> bool {
    numbered(s, i) && forall|k: int| 0 <= k < i ==> !#[trigger] numbered(s, k)
}

/// The number in the five digits from `i` on.
pub open spec fn five_at(s: Seq<char>, i: int) -> nat {
    match parsed_unsigned(s.subrange(i, i + 5), 99_999) {
        Some(n) => n,
        None => 0,
    }
}

/// `files` are the shards 1 to `total` in order, and `name` is shard `n` among
/// them; `name` alone where it cannot be.
pub open spec fn lists_shards(
    files: Seq<String>,
    name: Seq<char>,
    mark: Seq<char>,
    n: nat,
    total: nat,
) -> bool {
    if 1 <= n <= total {
        &&& files.len() == total
        &&& files[n - 1]@ == name
        &&& forall|k: int|
            #![trigger files[k]]
            0 <= k < total && k != n - 1 ==> files[k]@ == sibling_name(
                name,
                mark,
                (k + 1) as nat,
            )
    } else {
        files.len() == 1 && files[0]@ == name
    }
}

fn find_text(s: &[char], pattern: &[char]) -> (at: Option<usize>)
    ensures
        match at {
            Some(i) => found_at(s@, pattern@, i as int),
            None => !occurs(s@, pattern@),
        },
{
    let len: usize = s.len();
    let mut i: usize = 0;
    while i <= len
        invariant
            len == s@.len(),
            i <= len + 1,
            forall|k: int| 0 <= k < i ==> !starts_with(#[trigger] s@.skip(k), pattern@),
        decreases len + 1 - i,
    {
        let (_, rest) = s.split_at(i);
        assert(rest@ =~= s@.skip(i as int));
        if has_prefix(rest, pattern) {
            return Some(i);
        }
        if i == len {
            return None;
        }
        i += 1;
    }
    None
}

fn replace_text(s: &[char], pattern: &[char], by: &str) -> (out: String)
    requires
        pattern@.len() > 0,
    ensures
        out@ == replaced(s@, pattern@, by@),
{
    let len: usize = s.len();
    let mut out: String = String::new();
    let mut i: usize = 0;
    assert(s@.skip(0) =~= s@);
    assert(out@ + replaced(s@.skip(0), pattern@, by@) =~= replaced(s@, pattern@, by@));
    while i < len
        invariant
            i <= len,
            len == s@.len(),
            pattern@.len() > 0,
            out@ + replaced(s@.skip(i as int), pattern@, by@) == replaced(s@, pattern@, by@),
        decreases len - i,
    {
        let (_, rest) = s.split_at(i);
        assert(rest@ =~= s@.skip(i as int));
        let ghost before = out@;
        let ghost tail = s@.skip(i as int);
        if has_prefix(rest, pattern) {
            out.append(by);
            i += pattern.len();
            assert(tail.skip(pattern@.len() as int) =~= s@.skip(i as int));
            assert(out@ + replaced(s@.skip(i as int), pattern@, by@) =~= before + replaced(
                tail,
                pattern@,
                by@,
            ));
        } else {
            out.push(s[i]);
            i += 1;
            assert(tail.skip(1) =~= s@.skip(i as int));
            assert(out@ + replaced(s@.skip(i as int), pattern@, by@) =~= before + replaced(
                tail,
                pattern@,
                by@,
            ));
        }
    }
    assert(out@ + replaced(s@.skip(len as int), pattern@, by@) =~= out@);
    out
}

fn five_digit_string(n: u64) -> (s: String)
    ensures
        s@ == five_digits(n as nat),
{
    let d: String = decimal_string(n);
    let count: usize = chars_of(d.as_str()).len();
    let mut s: String = String::new();
    let mut i: usize = count;
    while i < 5
        invariant
            count == decimal(n as nat).len(),
            count <= i,
            i <= 5 || i == count,
            s@ == Seq::new((i - count) as nat, |k: int| '0'),
        ensures
            s@ == Seq::new((if count < 5 { 5 - count } else { 0 }) as nat, |k: int| '0'),
        decreases 5 - i,
    {
        s.push('0');
        i += 1;
        assert(s@ =~= Seq::new((i - count) as nat, |k: int| '0'));
    }
    s.append(d.as_str());
    assert(s@ =~= five_digits(n as nat));
    s
}

fn is_digits_at(s: &[char], i: usize) -> (yes: bool)
    requires
        i + 5 <= s@.len(),
    ensures
        yes == digits_at(s@, i as int),
{
    let len: usize = s.len();
    let mut k: usize = i;
    while k < i + 5
        invariant
            i <= k <= i + 5 <= s@.len(),
            s@.len() == len,
            forall|j: int| i <= j < k ==> digit_value(#[trigger] s@[j]) is Some,
        decreases i + 5 - k,
    {
        if !('0' <= s[k] && s[k] <= '9') {
            assert(digit_value(s@[k as int]) is None);
            return false;
        }
        k += 1;
    }
    true
}

fn find_numbered(s: &[char]) -> (at: Option<usize>)
    ensures
        match at {
            Some(i) => numbered_at(s@, i as int),
            None => forall|i: int| !#[trigger] numbered(s@, i),
        },
{
    let len: usize = s.len();
    let mut i: usize = 0;
    while i < len && len - i >= 15
        invariant
            i <= len,
            len == s@.len(),
            forall|k: int| 0 <= k < i ==> !#[trigger] numbered(s@, k),
        decreases len - i,
    {
        if s[i] == '-' && is_digits_at(s, i + 1) && s[i + 6] == '-' && s[i + 7] == 'o' && s[i + 8]
            == 'f' && s[i + 9] == '-' && is_digits_at(s, i + 10) {
            return Some(i);
        }
        i += 1;
    }
    None
}

fn number_at_place(s: &[char], i: usize) -> (n: u64)
    requires
        i + 5 <= s@.len(),
    ensures
        n == five_at(s@, i as int),
        n <= 99_999,
{
    let (_, behind) = s.split_at(i);
    let (digits, _) = behind.split_at(5);
    assert(digits@ =~= s@.subrange(i as int, i + 5));
    match parse_unsigned(digits, 99_999) {
        Some(n) => n,
        None => 0,
    }
}

fn list_shards(name: &str, mark: &[char], n: u64, total: u64) -> (files: Vec<String>)
    requires
        mark@.len() > 0,
        total <= 99_999,
    ensures
        lists_shards(files@, name@, mark@, n as nat, total as nat),
{
    let mut files: Vec<String> = Vec::new();
    if n < 1 || n > total {
        files.push(name.to_owned());
        return files;
    }
    let chars: Vec<char> = chars_of(name);
    let mut i: u64 = 1;
    while i <= total
        invariant
            1 <= i <= total + 1,
            1 <= n <= total <= 99_999,
            chars@ == name@,
            mark@.len() > 0,
            files@.len() == i - 1,
            n < i ==> files@[n - 1]@ == name@,
            forall|k: int|
                #![trigger files@[k]]
                0 <= k < files@.len() && k != n - 1 ==> files@[k]@ == sibling_name(
                    name@,
                    mark@,
                    (k + 1) as nat,
                ),
        decreases total + 1 - i,
    {
        if i == n {
            files.push(name.to_owned());
        } else {
            let mut by: String = String::new();
            by.append("-");
            by.append(five_digit_string(i).as_str());
            by.append("-of-");
            assert(by@ =~= "-"@ + five_digits(i as nat) + "-of-"@);
            files.push(replace_text(chars.as_slice(), mark, by.as_str()));
        }
        i += 1;
    }
    files
}

/// The file names of a model's shards, from the name of any one of them:
/// siblings follow from its `-NNNNN-of-TTTTT`. A name without it stands alone.
/// `None` where the name of a first shard ends within the number of shards, or
/// that number is cut within a character.
pub fn shard_files(name: &str) -> (files: Option<Vec<String>>)
    ensures
        forall|at: int| #[trigger] found_at(name@, first_mark(), at) ==> match files {
            Some(files) => {
                &&& readable(name@.skip(at + 10))
                &&& lists_shards(
                    files@,
                    name@,
                    first_mark(),
                    1,
                    announced(name@.skip(at + 10)),
                )
            },
            None => !readable(name@.skip(at + 10)),
        },
        !occurs(name@, first_mark()) ==> files is Some,
        forall|at: int|
            !occurs(name@, first_mark()) && #[trigger] numbered_at(name@, at) ==> lists_shards(
                files->0@,
                name@,
                name@.subrange(at, at + 10),
                five_at(name@, at + 1),
                five_at(name@, at + 10),
            ),
        !occurs(name@, first_mark()) && (forall|at: int| !#[trigger] numbered(name@, at)) ==> {
            &&& files->0@.len() == 1
            &&& files->0@[0]@ == name@
        },
{
    let chars: Vec<char> = chars_of(name);
    let len: usize = chars.len();
    let mark: Vec<char> = chars_of("-00001-of-");
    proof {
        reveal_strlit("-00001-of-");
    }
    if let Some(at) = find_text(chars.as_slice(), mark.as_slice()) {
        assert forall|x: int| #[trigger] found_at(name@, first_mark(), x) implies x == at by {
            if x < at {
                assert(!starts_with(name@.skip(x), first_mark()));
            }
            if at < x {
                assert(!starts_with(name@.skip(at as int), first_mark()));
            }
        }
        assert(occurs(name@, first_mark())) by {
            assert(starts_with(name@.skip(at as int), first_mark()));
        }
        assert(at + 10 <= len) by {
            assert(starts_with(name@.skip(at as int), first_mark()));
        }
        let (_, behind) = chars.as_slice().split_at(at + 10);
        assert(behind@ =~= name@.skip(at + 10));
        let rest: String = string_of(behind);
        if !rest.as_str().is_char_boundary(5) {
            return None;
        }
        let (five, _) = rest.as_str().split_at(5);
        proof {
            vstd::utf8::encode_utf8_decode_utf8(five@);
        }
        let digits: Vec<char> = chars_of(five);
        let total: u64 = match parse_unsigned(digits.as_slice(), 99_999) {
            Some(n) => n,
            None => 1,
        };
        return Some(list_shards(name, mark.as_slice(), 1, total));
    }
    assert forall|x: int| !#[trigger] found_at(name@, first_mark(), x) by {
        if found_at(name@, first_mark(), x) {
            assert(starts_with(name@.skip(x), first_mark()));
        }
    }
    match find_numbered(chars.as_slice()) {
        Some(at) => {
            assert forall|x: int| #[trigger] numbered_at(name@, x) implies x == at by {
                if x < at {
                    assert(!numbered(name@, x));
                }
                if at < x {
                    assert(!numbered(name@, at as int));
                }
            }
            assert(numbered(name@, at as int));
            let (_, from) = chars.as_slice().split_at(at);
            let (own, _) = from.split_at(10);
            assert(at + 15 <= len);
            assert(own@ =~= name@.subrange(at as int, at + 10));
            let n: u64 = number_at_place(chars.as_slice(), at + 1);
            let total: u64 = number_at_place(chars.as_slice(), at + 10);
            Some(list_shards(name, own, n, total))
        },
        None => {
            let mut files: Vec<String> = Vec::new();
            files.push(name.to_owned());
            Some(files)
        },
    }
}

/// The set of shards holds the shard that was named, whichever it is.
pub proof fn law_named_shard_is_listed(
    files: Seq<String>,
    name: Seq<char>,
    mark: Seq<char>,
    n: nat,
    total: nat,
)
    requires
        lists_shards(files, name, mark, n, total),
    ensures
        exists|k: int| 0 <= k < files.len() && (#[trigger] files[k])@ == name,
{
    if 1 <= n <= total {
        assert(files[n - 1]@ == name);
    } else {
        assert(files[0]@ == name);
    }
}

} // verus!
