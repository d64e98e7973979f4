//! Minimal safetensors reader: u64 LE header length, JSON header mapping
//! tensor name -> {dtype, shape, data_offsets}, then raw data. Tensors are
//! read on demand — the file is never loaded whole.

use crate::bytes::{le_value, read_le};
use crate::json::{
    ascending, json_document, member_trees, parse_json, trees, Json, JsonTree,
};
use crate::order::{lemma_text_less_irreflexive, lemma_text_less_transitive, place, text_less, Place};
use crate::text::same_text;
use vstd::prelude::*;

verus! {

#[derive(Debug, Clone)]
pub struct TensorInfo {
    pub dtype: String,
    pub shape: Vec<usize>,
    /// Absolute byte range within the file.
    pub start: u64,
    pub end: u64,
}

/// A tensor's entry, mathematically.
pub struct TensorView {
    pub dtype: Seq<char>,
    pub shape: Seq<usize>,
    pub start: nat,
    pub end: nat,
}

impl TensorInfo {
    pub open spec fn view(self) -> TensorView {
        TensorView {
            dtype: self.dtype@,
            shape: self.shape@,
            start: self.start as nat,
            end: self.end as nat,
        }
    }

    /// How many bytes the tensor occupies; `None` where its range is inverted.
    pub fn nbytes(&self) -> (n: Option<u64>)
        ensures
            match n {
                Some(n) => self@.start <= self@.end && n == self@.end - self@.start,
                None => self@.end < self@.start,
            },
    {
        if self.end < self.start {
            None
        } else {
            Some(self.end - self.start)
        }
    }

    /// The same entry once more.
    pub fn copy(&self) -> (info: TensorInfo)
        ensures
            info@ == self@,
    {
        let mut shape: Vec<usize> = Vec::new();
        let mut i: usize = 0;
        while i < self.shape.len()
            invariant
                i <= self.shape@.len(),
                shape@ == self.shape@.take(i as int),
            decreases self.shape@.len() - i,
        {
            shape.push(self.shape[i]);
            i += 1;
            assert(shape@ =~= self.shape@.take(i as int));
        }
        assert(shape@ =~= self.shape@);
        TensorInfo { dtype: self.dtype.clone(), shape, start: self.start, end: self.end }
    }
}

/// What is wrong with a header.
#[derive(Debug, PartialEq, Eq)]
pub enum HeaderError {
    /// The header is not JSON.
    NotJson,
    /// The header is JSON, but no object.
    NotAnObject,
    /// A tensor has no `data_offsets`.
    MissingOffsets { name: String },
    /// A tensor's `data_offsets` are fewer than two, or beyond any file.
    BadOffsets { name: String },
}

/// What is wrong with a header, mathematically.
pub enum HeaderFault {
    NotJson,
    NotAnObject,
    MissingOffsets { name: Seq<char> },
    BadOffsets { name: Seq<char> },
}

impl HeaderError {
    pub open spec fn view(self) -> HeaderFault {
        match self {
            HeaderError::NotJson => HeaderFault::NotJson,
            HeaderError::NotAnObject => HeaderFault::NotAnObject,
            HeaderError::MissingOffsets { name } => HeaderFault::MissingOffsets { name: name@ },
            HeaderError::BadOffsets { name } => HeaderFault::BadOffsets { name: name@ },
        }
    }
}

/// The dimensions in a list: its non-negative integers, in order.
pub open spec fn shape_of(items: Seq<JsonTree>) -> Seq<usize>
    decreases items.len(),
{
    if items.len() == 0 {
        Seq::empty()
    } else {
        match items.last().as_uint() {
            Some(n) => shape_of(items.drop_last()).push(n as usize),
            None => shape_of(items.drop_last()),
        }
    }
}

/// Offset `i` of a `data_offsets` list, 0 where it is no such number.
pub open spec fn offset_at(offsets: Seq<JsonTree>, i: int) -> nat {
    match offsets[i].as_uint() {
        Some(n) => n as nat,
        None => 0,
    }
}

/// The entry that `info` describes, in a file whose data starts at `base`.
pub open spec fn tensor_view(info: JsonTree, base: nat) -> TensorView {
    let offsets = info.items_at("data_offsets"@)->0;
    TensorView {
        dtype: match info.text_at("dtype"@) {
            Some(s) => s,
            None => Seq::empty(),
        },
        shape: match info.items_at("shape"@) {
            Some(items) => shape_of(items),
            None => Seq::empty(),
        },
        start: base + offset_at(offsets, 0),
        end: base + offset_at(offsets, 1),
    }
}

/// What is wrong with the entry of tensor `name`, if anything.
pub open spec fn tensor_fault(name: Seq<char>, info: JsonTree, base: nat) -> Option<HeaderFault> {
    match info.items_at("data_offsets"@) {
        None => Some(HeaderFault::MissingOffsets { name }),
        Some(offsets) => {
            if offsets.len() < 2 || base + offset_at(offsets, 0) > u64::MAX || base + offset_at(
                offsets,
                1,
            ) > u64::MAX {
                Some(HeaderFault::BadOffsets { name })
            } else {
                None
            }
        },
    }
}

/// The tensors among the first `n` members of a header, or its first fault.
pub open spec fn tensor_table(
    members: Seq<(Seq<char>, JsonTree)>,
    base: nat,
    n: nat,
) -> Result<Seq<(Seq<char>, TensorView)>, HeaderFault>
    decreases n,
{
    if n == 0 {
        Ok(Seq::empty())
    } else {
        match tensor_table(members, base, (n - 1) as nat) {
            Err(fault) => Err(fault),
            Ok(table) => {
                let (name, info) = members[n - 1];
                if name == "__metadata__"@ {
                    Ok(table)
                } else {
                    match tensor_fault(name, info, base) {
                        Some(fault) => Err(fault),
                        None => Ok(table.push((name, tensor_view(info, base)))),
                    }
                }
            },
        }
    }
}

/// The tensors of a header, in a file whose data starts at `base`.
pub open spec fn header_table(header: JsonTree, base: nat) -> Result<
    Seq<(Seq<char>, TensorView)>,
    HeaderFault,
> {
    match header {
        JsonTree::Object(members) => tensor_table(members, base, members.len()),
        _ => Err(HeaderFault::NotAnObject),
    }
}

/// Names in strictly ascending byte order.
pub open spec fn sorted_names<T>(table: Seq<(Seq<char>, T)>) -> bool {
    forall|i: int, j: int|
        #![trigger table[i], table[j]]
        0 <= i < j < table.len() ==> text_less(table[i].0, table[j].0)
}

/// The table has the names of the header in their order.
proof fn lemma_table_sorted(members: Seq<(Seq<char>, JsonTree)>, base: nat, n: nat)
    requires
        n <= members.len(),
        ascending(members),
        tensor_table(members, base, n) is Ok,
    ensures
        sorted_names(tensor_table(members, base, n)->Ok_0),
        forall|i: int|
            #![trigger tensor_table(members, base, n)->Ok_0[i]]
            0 <= i < tensor_table(members, base, n)->Ok_0.len() ==> exists|k: int|
                0 <= k < n && tensor_table(members, base, n)->Ok_0[i].0 == members[k].0,
    decreases n,
{
    if n > 0 {
        lemma_table_sorted(members, base, (n - 1) as nat);
        let before = tensor_table(members, base, (n - 1) as nat)->Ok_0;
        let after = tensor_table(members, base, n)->Ok_0;
        assert forall|i: int| #![trigger after[i]] 0 <= i < after.len() implies exists|k: int|
            0 <= k < n && after[i].0 == members[k].0 by {
            if i < before.len() {
                assert(after[i] == before[i]);
                let k = choose|k: int| 0 <= k < n - 1 && before[i].0 == members[k].0;
                assert(0 <= k < n && after[i].0 == members[k].0);
            } else {
                assert(after[i].0 == members[n - 1].0);
            }
        }
        assert forall|i: int, j: int|
            #![trigger after[i], after[j]]
            0 <= i < j < after.len() implies text_less(after[i].0, after[j].0) by {
            assert(after[i] == before[i]);
            if j < before.len() {
                assert(after[j] == before[j]);
            } else {
                let k = choose|k: int| 0 <= k < n - 1 && before[i].0 == members[k].0;
                assert(text_less(members[k].0, members[n - 1].0));
            }
        }
    }
}

fn shape_dims(items: &Vec<Json>) -> (shape: Vec<usize>)
    ensures
        shape@ == shape_of(trees(items@)),
{
    let mut shape: Vec<usize> = Vec::new();
    let mut i: usize = 0;
    let ghost all = trees(items@);
    assert(all.take(0) =~= Seq::<JsonTree>::empty());
    while i < items.len()
        invariant
            i <= items@.len(),
            all == trees(items@),
            shape@ == shape_of(all.take(i as int)),
        decreases items@.len() - i,
    {
        assert(all[i as int] == items@[i as int]@);
        assert(all.take(i + 1).drop_last() =~= all.take(i as int));
        assert(all.take(i + 1).last() == all[i as int]);
        match items[i].as_u64() {
            Some(n) => shape.push(n as usize),
            None => {},
        }
        i += 1;
    }
    assert(all.take(i as int) =~= all);
    shape
}

fn offset_or_zero(items: &Vec<Json>, i: usize) -> (n: u64)
    requires
        i < items@.len(),
    ensures
        n == offset_at(trees(items@), i as int),
{
    assert(trees(items@)[i as int] == items@[i as int]@);
    match items[i].as_u64() {
        Some(n) => n,
        None => 0,
    }
}

/// One tensor's entry.
pub fn tensor_info(name: &str, info: &Json, base: u64) -> (t: Result<TensorInfo, HeaderError>)
    ensures
        match t {
            Ok(t) => {
                &&& tensor_fault(name@, info@, base as nat) is None
                &&& t@ == tensor_view(info@, base as nat)
            },
            Err(e) => tensor_fault(name@, info@, base as nat) == Some(e@),
        },
{
    let offsets: &Vec<Json> = match info.get_array("data_offsets") {
        Some(offsets) => offsets,
        None => {
            return Err(HeaderError::MissingOffsets { name: name.to_owned() });
        },
    };
    if offsets.len() < 2 {
        return Err(HeaderError::BadOffsets { name: name.to_owned() });
    }
    let start: Option<u64> = base.checked_add(offset_or_zero(offsets, 0));
    let end: Option<u64> = base.checked_add(offset_or_zero(offsets, 1));
    match (start, end) {
        (Some(start), Some(end)) => {
            let dtype: String = match info.get_str("dtype") {
                Some(s) => s.to_owned(),
                None => String::new(),
            };
            let shape: Vec<usize> = match info.get_array("shape") {
                Some(items) => shape_dims(items),
                None => Vec::new(),
            };
            assert(info@.items_at("shape"@) is None ==> shape@ =~= Seq::<usize>::empty());
            Ok(TensorInfo { dtype, shape, start, end })
        },
        _ => Err(HeaderError::BadOffsets { name: name.to_owned() }),
    }
}

/// The names and entries of a table.
pub open spec fn table_view(table: Seq<(String, TensorInfo)>) -> Seq<(Seq<char>, TensorView)> {
    Seq::new(table.len(), |i: int| (table[i].0@, table[i].1@))
}

/// The tensors of one file, in ascending order of their names.
#[derive(Debug)]
pub struct SafeTensors {
    tensors: Vec<(String, TensorInfo)>,
}

impl SafeTensors {
    pub closed spec fn view(self) -> Seq<(Seq<char>, TensorView)> {
        table_view(self.tensors@)
    }

    pub open spec fn wf(self) -> bool {
        sorted_names(self@)
    }

    /// The length of the header that a file's first eight bytes announce.
    pub fn header_len(first: &[u8]) -> (n: u64)
        requires
            first@.len() >= 8,
        ensures
            n == le_value(first@.take(8)),
    {
        assert(first@.take(8) =~= first@.subrange(0, 8));
        read_le(first, 0, 8)
    }

    /// Reads the header of a file: the bytes behind the first eight, as many
    /// as those announce.
    pub fn open(header: &[u8]) -> (st: Result<Self, HeaderError>)
        requires
            8 + header@.len() <= u64::MAX,
        ensures
            match json_document(header@) {
                None => st matches Err(e) && e@ == HeaderFault::NotJson,
                Some(tree) => match header_table(tree, 8 + header@.len()) {
                    Ok(table) => st matches Ok(st) && st.wf() && st@ == table,
                    Err(fault) => st matches Err(e) && e@ == fault,
                },
            },
    {
        match parse_json(header) {
            Some(json) => Self::from_header(&json, 8 + header.len() as u64),
            None => Err(HeaderError::NotJson),
        }
    }

    /// Reads a parsed header, in a file whose data starts at `base`.
    pub fn from_header(header: &Json, base: u64) -> (st: Result<Self, HeaderError>)
        requires
            header@.orderly(),
        ensures
            match header_table(header@, base as nat) {
                Ok(table) => st matches Ok(st) && st.wf() && st@ == table,
                Err(fault) => st matches Err(e) && e@ == fault,
            },
    {
        let members: &Vec<(String, Json)> = match header {
            Json::Object(members) => members,
            _ => {
                return Err(HeaderError::NotAnObject);
            },
        };
        let mut tensors: Vec<(String, TensorInfo)> = Vec::new();
        let ghost all = member_trees(members@);
        let mut i: usize = 0;
        assert(table_view(tensors@) =~= Seq::<(Seq<char>, TensorView)>::empty());
        while i < members.len()
            invariant
                i <= members@.len(),
                all == member_trees(members@),
                ascending(all),
                header@ == JsonTree::Object(all),
                tensor_table(all, base as nat, i as nat) == Ok::<
                    Seq<(Seq<char>, TensorView)>,
                    HeaderFault,
                >(table_view(tensors@)),
            decreases members@.len() - i,
        {
            let m: &(String, Json) = &members[i];
            assert(all[i as int] == (m.0@, m.1@));
            if !same_text(m.0.as_str(), "__metadata__") {
                let info: TensorInfo = match tensor_info(m.0.as_str(), &m.1, base) {
                    Ok(info) => info,
                    Err(e) => {
                        proof {
                            lemma_table_fault(all, base as nat, (i + 1) as nat, all.len());
                        }
                        return Err(e);
                    },
                };
                let ghost before = tensors@;
                tensors.push((m.0.clone(), info));
                assert(table_view(tensors@) =~= table_view(before).push((m.0@, info@)));
            }
            i += 1;
        }
        proof {
            lemma_table_sorted(all, base as nat, all.len());
        }
        Ok(SafeTensors { tensors })
    }

    /// How many tensors there are.
    pub fn len(&self) -> (n: usize)
        ensures
            n == self@.len(),
    {
        self.tensors.len()
    }

    /// Name and entry of tensor `i`, in ascending order of names.
    pub fn at(&self, i: usize) -> (t: (&str, &TensorInfo))
        requires
            i < self@.len(),
        ensures
            (t.0@, t.1@) == self@[i as int],
    {
        let t: &(String, TensorInfo) = &self.tensors[i];
        (t.0.as_str(), &t.1)
    }

    /// The entry of tensor `name`.
    pub fn info(&self, name: &str) -> (info: Option<&TensorInfo>)
        requires
            self.wf(),
        ensures
            match info {
                Some(info) => self@.contains((name@, info@)),
                None => forall|i: int| 0 <= i < self@.len() ==> (#[trigger] self@[i]).0 != name@,
            },
    {
        proof {
            let k = keyed(self.tensors@);
            assert forall|i: int, j: int|
                #![trigger k[i], k[j]]
                0 <= i < j < k.len() implies text_less(k[i].0, k[j].0) by {
                assert(text_less(self@[i].0, self@[j].0));
            }
        }
        match search(&self.tensors, name) {
            Ok(i) => {
                assert(self@[i as int] == (name@, self.tensors@[i as int].1@));
                Some(&self.tensors[i].1)
            },
            Err(_) => {
                assert forall|i: int| 0 <= i < self@.len() implies (#[trigger] self@[i]).0
                    != name@ by {
                    assert(self.tensors@[i].0@ != name@);
                }
                None
            },
        }
    }
}

/// A header with a fault among its first `k` members has that fault.
proof fn lemma_table_fault(members: Seq<(Seq<char>, JsonTree)>, base: nat, k: nat, n: nat)
    requires
        k <= n,
        tensor_table(members, base, k) is Err,
    ensures
        tensor_table(members, base, n) == tensor_table(members, base, k),
    decreases n,
{
    if k < n {
        lemma_table_fault(members, base, k, (n - 1) as nat);
    }
}

/// A table by its names.
pub open spec fn keyed<T>(table: Seq<(String, T)>) -> Seq<(Seq<char>, T)> {
    Seq::new(table.len(), |i: int| (table[i].0@, table[i].1))
}

/// Position of `name` in a table sorted by name, or the position where it
/// would go.
pub fn search<T>(table: &Vec<(String, T)>, name: &str) -> (r: Result<usize, usize>)
    requires
        sorted_names(keyed(table@)),
    ensures
        match r {
            Ok(i) => i < table@.len() && table@[i as int].0@ == name@,
            Err(i) => {
                &&& i <= table@.len()
                &&& forall|k: int|
                    #![trigger table@[k]]
                    0 <= k < i ==> text_less(table@[k].0@, name@)
                &&& forall|k: int|
                    #![trigger table@[k]]
                    i <= k < table@.len() ==> text_less(name@, table@[k].0@)
                &&& forall|k: int|
                    #![trigger table@[k]]
                    0 <= k < table@.len() ==> table@[k].0@ != name@
            },
        },
{
    let ghost view = keyed(table@);
    let mut lo: usize = 0;
    let mut hi: usize = table.len();
    while lo < hi
        invariant
            lo <= hi <= table@.len(),
            view == keyed(table@),
            sorted_names(view),
            forall|k: int| #![trigger table@[k]] 0 <= k < lo ==> text_less(table@[k].0@, name@),
            forall|k: int|
                #![trigger table@[k]]
                hi <= k < table@.len() ==> text_less(name@, table@[k].0@),
        decreases hi - lo,
    {
        let mid: usize = lo + (hi - lo) / 2;
        assert(view[mid as int].0 == table@[mid as int].0@);
        match place(table[mid].0.as_str(), name) {
            Place::Same => {
                return Ok(mid);
            },
            Place::Before => {
                assert forall|k: int| #![trigger table@[k]] 0 <= k < mid + 1 implies text_less(
                    table@[k].0@,
                    name@,
                ) by {
                    if k < mid {
                        assert(text_less(view[k].0, view[mid as int].0));
                        lemma_text_less_transitive(table@[k].0@, table@[mid as int].0@, name@);
                    }
                }
                lo = mid + 1;
            },
            Place::After => {
                assert forall|k: int|
                    #![trigger table@[k]]
                    mid <= k < table@.len() implies text_less(name@, table@[k].0@) by {
                    if k > mid {
                        assert(text_less(view[mid as int].0, view[k].0));
                        lemma_text_less_transitive(name@, table@[mid as int].0@, table@[k].0@);
                    }
                }
                hi = mid;
            },
        }
    }
    proof {
        lemma_text_less_irreflexive(name@);
    }
    Err(lo)
}

/// The number formats a tensor can be read as f32 from.
#[derive(Debug, Clone, Copy, PartialEq, Eq, Structural)]
pub enum FloatType {
    Bf16,
    F32,
}

/// The format that a dtype names.
pub open spec fn float_type(dtype: Seq<char>) -> Option<FloatType> {
    if dtype == "BF16"@ {
        Some(FloatType::Bf16)
    } else if dtype == "F32"@ {
        Some(FloatType::F32)
    } else {
        None
    }
}

/// Bytes of one number.
pub open spec fn float_width(t: FloatType) -> nat {
    match t {
        FloatType::Bf16 => 2,
        FloatType::F32 => 4,
    }
}

/// The f32 bits of number `i` of a tensor.
pub open spec fn float_bits(t: FloatType, raw: Seq<u8>, i: int) -> nat {
    match t {
        FloatType::Bf16 => le_value(raw.subrange(2 * i, 2 * i + 2)) * 0x1_0000,
        FloatType::F32 => le_value(raw.subrange(4 * i, 4 * i + 4)),
    }
}

/// The tensor's numbers as f32 bits (from BF16 or F32); `None` for another
/// dtype. Bytes behind the last whole number are left out.
pub fn f32_bits(dtype: &str, raw: &[u8]) -> (vals: Option<Vec<u32>>)
    ensures
        match (float_type(dtype@), vals) {
            (Some(t), Some(vals)) => {
                &&& vals@.len() == raw@.len() / float_width(t)
                &&& forall|i: int|
                    0 <= i < vals@.len() ==> #[trigger] vals@[i] == float_bits(t, raw@, i)
            },
            (None, None) => true,
            _ => false,
        },
{
    let t: FloatType = if same_text(dtype, "BF16") {
        FloatType::Bf16
    } else if same_text(dtype, "F32") {
        FloatType::F32
    } else {
        return None;
    };
    let width: usize = match t {
        FloatType::Bf16 => 2,
        FloatType::F32 => 4,
    };
    let n: usize = raw.len() / width;
    let mut vals: Vec<u32> = Vec::new();
    let mut i: usize = 0;
    while i < n
        invariant
            i <= n,
            n == raw@.len() / width as nat,
            width == float_width(t),
            raw@.len() <= usize::MAX,
            vals@.len() == i,
            forall|k: int| 0 <= k < vals@.len() ==> #[trigger] vals@[k] == float_bits(t, raw@, k),
        decreases n - i,
    {
        proof {
            crate::bytes::lemma_span_values();
        }
        match t {
            FloatType::Bf16 => {
                let h: u64 = read_le(raw, 2 * i, 2);
                proof {
                    crate::bytes::law_le_bytes_of_value(raw@.subrange(2 * i, 2 * i + 2));
                }
                vals.push(h as u32 * 0x1_0000);
            },
            FloatType::F32 => {
                let b: u64 = read_le(raw, 4 * i, 4);
                proof {
                    crate::bytes::law_le_bytes_of_value(raw@.subrange(4 * i, 4 * i + 4));
                }
                vals.push(b as u32);
            },
        }
        i += 1;
    }
    Some(vals)
}

} // verus!
