//! The resident-core file: a safetensors file with the tensors that stay on
//! the device, in their source dtype.

use crate::bytes::{le_bytes, lemma_le_bytes_len, push_bytes, push_le};
use crate::checkpoint::{Checkpoint, LocView};
use crate::convert::{core_tensors, ConvertError, ExpertLayout, Format, Plan};
use crate::json::{
    ascending, blanks, find_member, json_document, json_text, member_trees, print_json, trees,
    Json, JsonTree,
};
use crate::order::{bytes_less, lemma_text_less_prefix, text_less};
use crate::st::{
    header_table, shape_of, tensor_fault, tensor_table, tensor_view, HeaderFault, TensorView,
};
use crate::text::{chars_of, string_of};
use vstd::prelude::*;
use vstd::string::*;

verus! {

/// A tensor of the core file.
#[derive(Debug)]
pub struct CoreEntry {
    pub name: String,
    pub dtype: String,
    pub shape: Vec<usize>,
    pub nbytes: u64,
}

/// A tensor of the core file, mathematically.
pub struct CoreView {
    pub name: Seq<char>,
    pub dtype: Seq<char>,
    pub shape: Seq<usize>,
    pub nbytes: nat,
}

impl CoreEntry {
    pub open spec fn view(self) -> CoreView {
        CoreView {
            name: self.name@,
            dtype: self.dtype@,
            shape: self.shape@,
            nbytes: self.nbytes as nat,
        }
    }
}

pub open spec fn core_views(entries: Seq<CoreEntry>) -> Seq<CoreView> {
    Seq::new(entries.len(), |i: int| entries[i]@)
}

/// The name under which the core file holds a tensor.
pub open spec fn core_name(layout: ExpertLayout, name: Seq<char>) -> Seq<char> {
    match layout.format {
        Format::Plain => name,
        Format::Packed => name.skip("language_model."@.len() as int),
    }
}

/// What the core file holds of a tensor.
pub open spec fn core_view(layout: ExpertLayout, t: (Seq<char>, LocView)) -> CoreView {
    CoreView {
        name: core_name(layout, t.0),
        dtype: t.1.info.dtype,
        shape: t.1.info.shape,
        nbytes: (t.1.info.end - t.1.info.start) as nat,
    }
}

/// Tensor names in strictly ascending order.
pub open spec fn core_sorted(entries: Seq<CoreView>) -> bool {
    forall|i: int, j: int|
        #![trigger entries[i], entries[j]]
        0 <= i < j < entries.len() ==> text_less(entries[i].name, entries[j].name)
}

proof fn lemma_core_tensors(layout: ExpertLayout, table: Seq<(Seq<char>, LocView)>, n: nat)
    requires
        n <= table.len(),
    ensures
        ({
            let core = core_tensors(layout, table, n);
            &&& forall|k: int|
                #![trigger core[k]]
                0 <= k < core.len() ==> 0 <= core[k] < n && layout.in_core(table[core[k]].0)
            &&& forall|j: int, k: int|
                #![trigger core[j], core[k]]
                0 <= j < k < core.len() ==> core[j] < core[k]
        }),
    decreases n,
{
    if n > 0 {
        lemma_core_tensors(layout, table, (n - 1) as nat);
        let before = core_tensors(layout, table, (n - 1) as nat);
        let core = core_tensors(layout, table, n);
        assert forall|k: int| #![trigger core[k]] 0 <= k < core.len() implies 0 <= core[k] < n
            && layout.in_core(table[core[k]].0) by {
            if k < before.len() {
                assert(core[k] == before[k]);
            }
        }
        assert forall|j: int, k: int|
            #![trigger core[j], core[k]]
            0 <= j < k < core.len() implies core[j] < core[k] by {
            assert(core[j] == before[j]);
            if k < before.len() {
                assert(core[k] == before[k]);
            }
        }
    }
}

/// What the core file will hold: the tensors of the core, in order. Fails on
/// the first whose byte range is inverted.
pub fn core_entries(ckpt: &Checkpoint, layout: &ExpertLayout, plan: &Plan) -> (entries: Result<
    Vec<CoreEntry>,
    ConvertError,
>)
    requires
        ckpt.wf(),
        plan.describes(*layout, ckpt@, ckpt@.len()),
    ensures
        ({
            let core = core_tensors(*layout, ckpt@, ckpt@.len());
            match entries {
                Ok(entries) => {
                    &&& core_views(entries@) == Seq::new(
                        core.len(),
                        |k: int| core_view(*layout, ckpt@[core[k]]),
                    )
                    &&& core_sorted(core_views(entries@))
                    &&& forall|k: int|
                        #![trigger core[k]]
                        0 <= k < core.len() ==> ckpt@[core[k]].1.info.start
                            <= ckpt@[core[k]].1.info.end
                },
                Err(e) => exists|k: int|
                    #![trigger core[k]]
                    {
                        &&& 0 <= k < core.len()
                        &&& e == (ConvertError::InvertedRange { tensor: core[k] as usize })
                        &&& ckpt@[core[k]].1.info.end < ckpt@[core[k]].1.info.start
                        &&& forall|j: int|
                            #![trigger core[j]]
                            0 <= j < k ==> ckpt@[core[j]].1.info.start
                                <= ckpt@[core[j]].1.info.end
                    },
            }
        }),
{
    let ghost table = ckpt@;
    let ghost core = core_tensors(*layout, table, table.len());
    proof {
        lemma_core_tensors(*layout, table, table.len());
    }
    let prefix: usize = chars_of("language_model.").len();
    let mut entries: Vec<CoreEntry> = Vec::new();
    let mut k: usize = 0;
    while k < plan.core.len()
        invariant
            k <= plan.core@.len(),
            table == ckpt@,
            core == core_tensors(*layout, table, table.len()),
            plan.describes(*layout, table, table.len()),
            prefix == "language_model."@.len(),
            forall|j: int|
                #![trigger core[j]]
                0 <= j < core.len() ==> 0 <= core[j] < table.len() && layout.in_core(
                    table[core[j]].0,
                ),
            entries@.len() == k,
            forall|j: int|
                #![trigger entries@[j]]
                0 <= j < k ==> entries@[j]@ == core_view(*layout, table[core[j]]),
            forall|j: int|
                #![trigger core[j]]
                0 <= j < k ==> table[core[j]].1.info.start <= table[core[j]].1.info.end,
        decreases plan.core@.len() - k,
    {
        let i: usize = plan.core[k];
        assert(i == core[k as int]);
        let (name, loc) = ckpt.at(i);
        let nbytes: u64 = match loc.info.nbytes() {
            Some(n) => n,
            None => {
                return Err(ConvertError::InvertedRange { tensor: i });
            },
        };
        let info = loc.info.copy();
        let renamed: String = match layout.format {
            Format::Plain => name.to_owned(),
            Format::Packed => {
                let chars: Vec<char> = chars_of(name);
                let (_, rest) = chars.as_slice().split_at(prefix);
                assert(rest@ =~= name@.skip(prefix as int));
                string_of(rest)
            },
        };
        entries.push(CoreEntry { name: renamed, dtype: info.dtype, shape: info.shape, nbytes });
        k += 1;
    }
    proof {
        let views = core_views(entries@);
        assert(views =~= Seq::new(core.len(), |k: int| core_view(*layout, table[core[k]])));
        assert forall|i: int, j: int|
            #![trigger views[i], views[j]]
            0 <= i < j < views.len() implies text_less(views[i].name, views[j].name) by {
            let a = table[core[i]].0;
            let b = table[core[j]].0;
            assert(text_less(a, b));
            if layout.format == Format::Packed {
                let p = "language_model."@;
                assert(a =~= p + core_name(*layout, a));
                assert(b =~= p + core_name(*layout, b));
                lemma_text_less_prefix(p, core_name(*layout, a), core_name(*layout, b));
            }
        }
    }
    Ok(entries)
}

/// Where the data of tensor `i` starts, counted from the end of the header.
pub open spec fn core_start(entries: Seq<CoreView>, i: nat) -> nat
    decreases i,
{
    if i == 0 {
        0
    } else {
        core_start(entries, (i - 1) as nat) + entries[i - 1].nbytes
    }
}

/// The dimensions of a tensor as a list.
pub open spec fn shape_tree(shape: Seq<usize>) -> Seq<JsonTree> {
    Seq::new(shape.len(), |i: int| JsonTree::Uint(shape[i] as u64))
}

/// What the header says of a tensor whose data starts at `start`.
pub open spec fn entry_tree(e: CoreView, start: nat) -> JsonTree {
    JsonTree::Object(
        seq![
            (
                "data_offsets"@,
                JsonTree::Array(
                    seq![
                        JsonTree::Uint(start as u64),
                        JsonTree::Uint((start + e.nbytes) as u64),
                    ],
                ),
            ),
            ("dtype"@, JsonTree::Str(e.dtype)),
            ("shape"@, JsonTree::Array(shape_tree(e.shape))),
        ],
    )
}

/// The header of a core file.
pub open spec fn core_tree(entries: Seq<CoreView>) -> JsonTree {
    JsonTree::Object(
        Seq::new(
            entries.len(),
            |i: int| (entries[i].name, entry_tree(entries[i], core_start(entries, i as nat))),
        ),
    )
}

/// Spaces that fill `len` bytes up to a multiple of eight.
pub open spec fn fill_of(len: nat) -> nat {
    ((8 - len % 8) % 8) as nat
}

/// The front of a core file: the length of the header, and the header, filled
/// with spaces to a multiple of eight.
pub open spec fn core_front(entries: Seq<CoreView>) -> Seq<u8> {
    let text = json_text(core_tree(entries));
    let header = text + blanks(fill_of(text.len()));
    le_bytes(header.len(), 8) + header
}

proof fn lemma_keys()
    ensures
        text_less("data_offsets"@, "dtype"@),
        text_less("dtype"@, "shape"@),
        text_less("data_offsets"@, "shape"@),
        "data_offsets"@ != "dtype"@,
        "data_offsets"@ != "shape"@,
        "dtype"@ != "shape"@,
{
    reveal_strlit("data_offsets");
    reveal_strlit("dtype");
    reveal_strlit("shape");
    vstd::utf8::is_ascii_chars_encode_utf8("data_offsets"@);
    vstd::utf8::is_ascii_chars_encode_utf8("dtype"@);
    vstd::utf8::is_ascii_chars_encode_utf8("shape"@);
    let a = vstd::utf8::encode_utf8("data_offsets"@);
    let b = vstd::utf8::encode_utf8("dtype"@);
    let c = vstd::utf8::encode_utf8("shape"@);
    assert("data_offsets"@[0] == 'd' && "data_offsets"@[1] == 'a');
    assert("dtype"@[0] == 'd' && "dtype"@[1] == 't');
    assert("shape"@[0] == 's');
    assert(a[0] == 100 && a[1] == 97);
    assert(b[0] == 100 && b[1] == 116);
    assert(c[0] == 115);
    assert(bytes_less(a.skip(1), b.skip(1)));
}

proof fn lemma_entry_plain(e: CoreView, start: nat)
    ensures
        entry_tree(e, start).plain(99),
{
    lemma_keys();
    let members = entry_tree(e, start)->Object_0;
    assert(members[0].1.plain(98)) by {
        let items = members[0].1->Array_0;
        assert(items[0].plain(97) && items[1].plain(97));
    }
    assert(members[2].1.plain(98)) by {
        let items = members[2].1->Array_0;
        assert forall|i: int| #![trigger items[i]] 0 <= i < items.len() implies items[i].plain(
            97,
        ) by {}
    }
    assert(ascending(members)) by {
        assert forall|i: int, j: int|
            #![trigger members[i], members[j]]
            0 <= i < j < members.len() implies text_less(members[i].0, members[j].0) by {
            assert((i == 0 && j == 1) || (i == 0 && j == 2) || (i == 1 && j == 2));
        }
    }
    assert(members[1].1.plain(98));
    assert forall|i: int|
        #![trigger members[i]]
        0 <= i < members.len() implies members[i].1.plain(98) by {
        assert(i == 0 || i == 1 || i == 2);
    }
    assert(JsonTree::Object(members).plain(99));
}

fn uint_items(shape: &Vec<usize>) -> (items: Vec<Json>)
    ensures
        trees(items@) == shape_tree(shape@),
{
    let mut items: Vec<Json> = Vec::new();
    let mut i: usize = 0;
    while i < shape.len()
        invariant
            i <= shape@.len(),
            items@.len() == i,
            forall|j: int|
                #![trigger items@[j]]
                0 <= j < i ==> items@[j]@ == JsonTree::Uint(shape@[j] as u64),
        decreases shape@.len() - i,
    {
        items.push(Json::Uint(shape[i] as u64));
        i += 1;
    }
    assert(trees(items@) =~= shape_tree(shape@));
    items
}

fn entry_json(e: &CoreEntry, start: u64) -> (json: Json)
    requires
        start + e.nbytes <= u64::MAX,
    ensures
        json@ == entry_tree(e@, start as nat),
{
    let mut offsets: Vec<Json> = Vec::new();
    offsets.push(Json::Uint(start));
    offsets.push(Json::Uint(start + e.nbytes));
    let mut members: Vec<(String, Json)> = Vec::new();
    members.push(("data_offsets".to_owned(), Json::Array(offsets)));
    members.push(("dtype".to_owned(), Json::Str(e.dtype.clone())));
    members.push(("shape".to_owned(), Json::Array(uint_items(&e.shape))));
    proof {
        let want = entry_tree(e@, start as nat)->Object_0;
        let have = member_trees(members@);
        assert(trees(offsets@) =~= seq![
            JsonTree::Uint(start),
            JsonTree::Uint((start + e.nbytes) as u64),
        ]);
        assert(have[0] == want[0]);
        assert(have[1] == want[1]);
        assert(have[2] == want[2]);
        assert(have =~= want);
    }
    Json::Object(members)
}

/// The front of a core file that holds the given tensors one after the
/// other: the length of the header, and the header, filled with spaces to a
/// multiple of eight so that the data is aligned.
pub fn core_header(entries: &Vec<CoreEntry>) -> (front: Result<Vec<u8>, ConvertError>)
    requires
        core_sorted(core_views(entries@)),
    ensures
        ({
            let views = core_views(entries@);
            match front {
                Ok(bytes) => {
                    &&& core_start(views, views.len()) <= u64::MAX
                    &&& bytes@ == core_front(views)
                    &&& json_document(bytes@.skip(8)) == Some(core_tree(views))
                },
                Err(e) => {
                    &&& e == ConvertError::CoreTooLarge
                    &&& core_start(views, views.len()) > u64::MAX
                },
            }
        }),
{
    let ghost views = core_views(entries@);
    let mut members: Vec<(String, Json)> = Vec::new();
    let mut cursor: u64 = 0;
    let mut i: usize = 0;
    while i < entries.len()
        invariant
            i <= entries@.len(),
            views == core_views(entries@),
            cursor == core_start(views, i as nat),
            members@.len() == i,
            forall|j: int|
                #![trigger members@[j]]
                0 <= j < i ==> {
                    &&& members@[j].0@ == views[j].name
                    &&& members@[j].1@ == entry_tree(views[j], core_start(views, j as nat))
                },
        decreases entries@.len() - i,
    {
        let e: &CoreEntry = &entries[i];
        assert(views[i as int] == e@);
        let next: u64 = match cursor.checked_add(e.nbytes) {
            Some(next) => next,
            None => {
                proof {
                    lemma_start_monotonic(views, (i + 1) as nat, views.len());
                }
                return Err(ConvertError::CoreTooLarge);
            },
        };
        members.push((e.name.clone(), entry_json(e, cursor)));
        cursor = next;
        i += 1;
    }
    let json = Json::Object(members);
    proof {
        let want = core_tree(views)->Object_0;
        let have = member_trees(members@);
        assert(have =~= want);
        assert forall|k: int| #![trigger have[k]] 0 <= k < have.len() implies have[k].1.plain(
            99,
        ) by {
            lemma_entry_plain(views[k], core_start(views, k as nat));
        }
        assert(ascending(have)) by {
            assert forall|x: int, y: int|
                #![trigger have[x], have[y]]
                0 <= x < y < have.len() implies text_less(have[x].0, have[y].0) by {
                assert(text_less(views[x].name, views[y].name));
            }
        }
        assert(json@.plain(100));
    }
    let mut header: Vec<u8> = print_json(&json);
    let ghost text = header@;
    let mut filled: usize = 0;
    assert(header@ =~= text + blanks(0));
    while header.len() % 8 != 0
        invariant
            header@ == text + blanks(filled as nat),
            filled < 8,
            filled <= fill_of(text.len()),
        ensures
            header@ == text + blanks(fill_of(text.len())),
        decreases 8 - filled,
    {
        header.push(32);
        filled += 1;
        assert(header@ =~= text + blanks(filled as nat));
    }
    let mut front: Vec<u8> = Vec::new();
    push_le(&mut front, header.len() as u64, 8);
    proof {
        lemma_le_bytes_len(header@.len(), 8);
        assert(front@ =~= le_bytes(header@.len(), 8));
    }
    push_bytes(&mut front, header.as_slice());
    assert(front@ =~= core_front(views));
    assert(front@.skip(8) =~= header@);
    Ok(front)
}

proof fn lemma_start_monotonic(entries: Seq<CoreView>, i: nat, j: nat)
    requires
        i <= j,
    ensures
        core_start(entries, i) <= core_start(entries, j),
    decreases j,
{
    if i < j {
        lemma_start_monotonic(entries, i, (j - 1) as nat);
    }
}

proof fn lemma_shape_tree(shape: Seq<usize>)
    ensures
        shape_of(shape_tree(shape)) == shape,
    decreases shape.len(),
{
    let t = shape_tree(shape);
    if shape.len() > 0 {
        lemma_shape_tree(shape.drop_last());
        assert(t.drop_last() =~= shape_tree(shape.drop_last()));
        assert(shape.drop_last().push(shape.last()) =~= shape);
    } else {
        assert(shape_of(t) =~= shape);
    }
}

proof fn lemma_entry_reads_back(e: CoreView, start: nat, base: nat)
    requires
        base + start + e.nbytes <= u64::MAX,
    ensures
        tensor_fault(e.name, entry_tree(e, start), base) is None,
        tensor_view(entry_tree(e, start), base) == (TensorView {
            dtype: e.dtype,
            shape: e.shape,
            start: base + start,
            end: base + start + e.nbytes,
        }),
{
    lemma_keys();
    lemma_shape_tree(e.shape);
    let t = entry_tree(e, start);
    let m = t->Object_0;
    reveal_with_fuel(find_member, 4);
    assert(m[0].0 == "data_offsets"@ && m[1].0 == "dtype"@ && m[2].0 == "shape"@);
    assert(t.member("data_offsets"@) == Some(m[0].1));
    assert(t.member("dtype"@) == Some(m[1].1));
    assert(t.member("shape"@) == Some(m[2].1));
}

proof fn lemma_core_table(entries: Seq<CoreView>, base: nat, n: nat)
    requires
        n <= entries.len(),
        base + core_start(entries, entries.len()) <= u64::MAX,
        forall|i: int|
            #![trigger entries[i]]
            0 <= i < entries.len() ==> entries[i].name != "__metadata__"@,
    ensures
        tensor_table(core_tree(entries)->Object_0, base, n) == Ok::<
            Seq<(Seq<char>, TensorView)>,
            HeaderFault,
        >(core_table(entries, base).take(n as int)),
    decreases n,
{
    let all = core_table(entries, base);
    if n > 0 {
        let i = n - 1;
        lemma_core_table(entries, base, i as nat);
        lemma_start_monotonic(entries, n, entries.len());
        lemma_entry_reads_back(entries[i], core_start(entries, i as nat), base);
        assert(all.take(n as int) =~= all.take(i).push(all[i]));
    } else {
        assert(all.take(0) =~= Seq::empty());
    }
}

/// The tensors of a core file whose data starts at `base`.
pub open spec fn core_table(entries: Seq<CoreView>, base: nat) -> Seq<(Seq<char>, TensorView)> {
    Seq::new(
        entries.len(),
        |i: int|
            (
                entries[i].name,
                TensorView {
                    dtype: entries[i].dtype,
                    shape: entries[i].shape,
                    start: base + core_start(entries, i as nat),
                    end: base + core_start(entries, i as nat) + entries[i].nbytes,
                },
            ),
    )
}

/// What a read gives back of a write: a reader of the core file finds every
/// tensor under its name, with its dtype and shape, at exactly the bytes that
/// were written for it.
pub proof fn law_core_reads_back(entries: Seq<CoreView>, base: nat)
    requires
        base + core_start(entries, entries.len()) <= u64::MAX,
        forall|i: int|
            #![trigger entries[i]]
            0 <= i < entries.len() ==> entries[i].name != "__metadata__"@,
    ensures
        header_table(core_tree(entries), base) == Ok::<
            Seq<(Seq<char>, TensorView)>,
            HeaderFault,
        >(core_table(entries, base)),
{
    lemma_core_table(entries, base, entries.len());
    assert(core_table(entries, base).take(entries.len() as int) =~= core_table(entries, base));
}

/// The tensors of a core file follow each other without gap or overlap.
pub proof fn law_core_tensors_tile(entries: Seq<CoreView>, base: nat, i: int)
    requires
        0 <= i < entries.len(),
    ensures
        core_table(entries, base)[0].1.start == base,
        i + 1 < entries.len() ==> core_table(entries, base)[i].1.end == core_table(
            entries,
            base,
        )[i + 1].1.start,
{
}

} // verus!
