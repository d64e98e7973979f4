//! Conversion loses nothing: every tensor of a checkpoint that is no routed
//! expert's has its entry in the core file, whatever its name ends in, and
//! every expert tensor has its place in the pack.

use crate::blob::tensors_of;
use crate::checkpoint::LocView;
use crate::config::{Config, KimiConfig};
use crate::convert::{
    core_tensors, last_named, misplaced, occurs, ConvertError, ExpertLayout, Format, Plan,
};
use crate::core_file::{core_view, CoreView};
use crate::load::layer_tensor;
use crate::names::{
    expert_named, expert_tensor_name, law_expert_name_round_trip, plain_expert, proj_name,
    ExpertTensor,
};
use crate::text::{
    cut_at, decimal, digit_value, first_index, lemma_decimal_digits, lemma_first_index_bound,
    starts_with,
};
use vstd::prelude::*;
use vstd::string::*;

verus! {

/// `piece` stands somewhere in `s`.
pub open spec fn within(s: Seq<char>, piece: Seq<char>) -> bool {
    exists|a: Seq<char>, b: Seq<char>| s == #[trigger] (a + piece + b)
}

/// No dot in `s`.
pub open spec fn dotless(s: Seq<char>) -> bool {
    forall|j: int| 0 <= j < s.len() ==> #[trigger] s[j] != '.'
}

proof fn lemma_occurs(s: Seq<char>, piece: Seq<char>)
    ensures
        occurs(s, piece) <==> within(s, piece),
{
    if occurs(s, piece) {
        let i = choose|i: int| 0 <= i <= s.len() && starts_with(#[trigger] s.skip(i), piece);
        let a = s.take(i);
        let b = s.skip(i).skip(piece.len() as int);
        assert(s.skip(i).take(piece.len() as int) == piece);
        assert(s.skip(i) =~= piece + b);
        assert(s =~= a + piece + b);
    }
    if within(s, piece) {
        let (a, b) = choose|a: Seq<char>, b: Seq<char>| s == #[trigger] (a + piece + b);
        let i = a.len() as int;
        assert(s.skip(i).take(piece.len() as int) =~= piece);
        assert(starts_with(s.skip(i), piece));
    }
}

/// The name of an expert tensor, taken apart.
proof fn lemma_named_parts(name: Seq<char>, prefix: Seq<char>, suffix: Seq<char>)
    requires
        expert_named(name, prefix, suffix) is Some,
    ensures
        exists|layer: Seq<char>, expert: Seq<char>, p: nat|
            {
                &&& dotless(layer)
                &&& dotless(expert)
                &&& p < 3
                &&& name == #[trigger] written(prefix, layer, expert, p, suffix)
            },
{
    let a = name.skip(prefix.len() as int);
    assert(name =~= prefix + a);
    lemma_cut(a);
    let (layer, b) = cut_at(a, '.')->0;
    let c = b.skip("mlp.experts."@.len() as int);
    assert(b =~= "mlp.experts."@ + c);
    lemma_cut(c);
    let (expert, d) = cut_at(c, '.')->0;
    let p: nat = if d == proj_name(0) + suffix {
        0
    } else if d == proj_name(1) + suffix {
        1
    } else {
        2
    };
    assert(d == proj_name(p) + suffix);
    reveal_strlit(".mlp.experts.");
    reveal_strlit("mlp.experts.");
    assert(".mlp.experts."@ =~= seq!['.'] + "mlp.experts."@);
    assert(name =~= written(prefix, layer, expert, p, suffix));
}

/// A name with a layer, an expert and a projection where those of expert
/// tensors have them.
pub open spec fn written(
    prefix: Seq<char>,
    layer: Seq<char>,
    expert: Seq<char>,
    p: nat,
    suffix: Seq<char>,
) -> Seq<char> {
    prefix + layer + ".mlp.experts."@ + (expert + seq!['.'] + proj_name(p) + suffix)
}

proof fn lemma_cut(s: Seq<char>)
    requires
        cut_at(s, '.') is Some,
    ensures
        s == (cut_at(s, '.')->0).0 + seq!['.'] + (cut_at(s, '.')->0).1,
        dotless((cut_at(s, '.')->0).0),
{
    lemma_before_first(s);
    let i = first_index(s, '.');
    assert(s =~= s.take(i) + seq!['.'] + s.skip(i + 1));
}

proof fn lemma_before_first(s: Seq<char>)
    ensures
        0 <= first_index(s, '.') <= s.len(),
        first_index(s, '.') < s.len() ==> s[first_index(s, '.')] == '.',
        forall|j: int| 0 <= j < first_index(s, '.') ==> #[trigger] s[j] != '.',
    decreases s.len(),
{
    lemma_first_index_bound(s, '.');
    if s.len() > 0 && s[0] != '.' {
        lemma_before_first(s.skip(1));
        assert forall|j: int| 0 <= j < first_index(s, '.') implies #[trigger] s[j] != '.' by {
            if j > 0 {
                assert(s.skip(1)[j - 1] == s[j]);
            }
        }
    }
}

proof fn lemma_expert_within(name: Seq<char>, prefix: Seq<char>, suffix: Seq<char>)
    requires
        expert_named(name, prefix, suffix) is Some,
    ensures
        within(name, ".mlp.experts."@),
{
    lemma_named_parts(name, prefix, suffix);
    let (layer, expert, p) = choose|layer: Seq<char>, expert: Seq<char>, p: nat|
        {
            &&& dotless(layer)
            &&& dotless(expert)
            &&& p < 3
            &&& name == #[trigger] written(prefix, layer, expert, p, suffix)
        };
    assert(name == (prefix + layer) + ".mlp.experts."@ + (expert + seq!['.'] + proj_name(p)
        + suffix));
}

/// Tensor `i` goes into the core if the core's rule says so.
proof fn lemma_core_has(
    layout: ExpertLayout,
    table: Seq<(Seq<char>, LocView)>,
    i: int,
    n: nat,
)
    requires
        0 <= i < n <= table.len(),
        layout.expert_in(table[i].0) is None,
        layout.in_core(table[i].0),
    ensures
        exists|k: int|
            0 <= k < core_tensors(layout, table, n).len() && #[trigger] core_tensors(
                layout,
                table,
                n,
            )[k] == i,
    decreases n,
{
    let before = core_tensors(layout, table, (n - 1) as nat);
    let core = core_tensors(layout, table, n);
    if i == n - 1 {
        assert(core[before.len() as int] == i);
    } else {
        lemma_core_has(layout, table, i, (n - 1) as nat);
        let k = choose|k: int| 0 <= k < before.len() && #[trigger] before[k] == i;
        assert(core[k] == i);
    }
}

proof fn lemma_core_only(layout: ExpertLayout, table: Seq<(Seq<char>, LocView)>, n: nat, k: int)
    requires
        n <= table.len(),
        0 <= k < core_tensors(layout, table, n).len(),
    ensures
        ({
            let i = core_tensors(layout, table, n)[k];
            &&& 0 <= i < n
            &&& layout.expert_in(table[i].0) is None
            &&& layout.in_core(table[i].0)
        }),
    decreases n,
{
    if n > 0 {
        let before = core_tensors(layout, table, (n - 1) as nat);
        if k < before.len() {
            lemma_core_only(layout, table, (n - 1) as nat, k);
        }
    }
}

/// What the core file holds, where the plan's tensors go into it in order.
pub open spec fn filed(
    layout: ExpertLayout,
    table: Seq<(Seq<char>, LocView)>,
    plan: Plan,
) -> Seq<CoreView> {
    let core = plan.core@;
    Seq::new(core.len(), |k: int| core_view(layout, table[core[k] as int]))
}

/// `core_entries` hands out what the plan files.
pub proof fn law_core_file_follows_the_plan(
    layout: ExpertLayout,
    table: Seq<(Seq<char>, LocView)>,
    plan: Plan,
)
    requires
        plan.describes(layout, table, table.len()),
    ensures
        ({
            let core = core_tensors(layout, table, table.len());
            Seq::new(core.len(), |k: int| core_view(layout, table[core[k]])) == filed(
                layout,
                table,
                plan,
            )
        }),
{
    let core = core_tensors(layout, table, table.len());
    assert(Seq::new(core.len(), |k: int| core_view(layout, table[core[k]])) =~= filed(
        layout,
        table,
        plan,
    ));
}

/// The core file has tensor `i` under `name`, with its type, its shape and as
/// many bytes as it has.
pub open spec fn files(
    entries: Seq<CoreView>,
    plan: Plan,
    table: Seq<(Seq<char>, LocView)>,
    i: int,
    name: Seq<char>,
) -> bool {
    exists|k: int|
        {
            &&& 0 <= k < entries.len()
            &&& plan.core@[k] == i
            &&& (#[trigger] entries[k]).name == name
            &&& entries[k].dtype == table[i].1.info.dtype
            &&& entries[k].shape == table[i].1.info.shape
            &&& entries[k].nbytes == table[i].1.info.end - table[i].1.info.start
        }
}

/// Nothing of a packed checkpoint's language model is lost: every tensor whose
/// name is `language_model.` and anything behind it, with no `.mlp.experts.`
/// in it, is in the core file under what stands behind `language_model.`.
pub proof fn law_packed_conversion_loses_nothing(
    layout: ExpertLayout,
    table: Seq<(Seq<char>, LocView)>,
    plan: Plan,
    i: int,
    name: Seq<char>,
)
    requires
        layout.format == Format::Packed,
        plan.describes(layout, table, table.len()),
        0 <= i < table.len(),
        table[i].1.info.start <= table[i].1.info.end,
        table[i].0 == "language_model."@ + name,
        !within(table[i].0, ".mlp.experts."@),
    ensures
        files(filed(layout, table, plan), plan, table, i, name),
{
    let full = table[i].0;
    let p = "language_model."@;
    lemma_occurs(full, ".mlp.experts."@);
    assert(full.take(p.len() as int) =~= p);
    assert(full.skip(p.len() as int) =~= name);
    if layout.expert_in(full) is Some {
        lemma_expert_within(full, "language_model.model.layers."@, "weight_packed"@);
    }
    lemma_core_has(layout, table, i, table.len());
    let core = core_tensors(layout, table, table.len());
    let k = choose|k: int| 0 <= k < core.len() && #[trigger] core[k] == i;
    assert(plan.core@[k] == core[k]);
    assert(filed(layout, table, plan)[k] == core_view(layout, table[i]));
}

/// Nothing of a plain checkpoint is lost: every tensor whose name is not
/// `model.layers.`, a layer, `.mlp.experts.`, an expert, `.`, a projection and
/// `weight` is in the core file under its own name. So is one of that shape
/// that names no expert because its layer or expert is no number.
pub proof fn law_plain_conversion_loses_nothing(
    layout: ExpertLayout,
    table: Seq<(Seq<char>, LocView)>,
    plan: Plan,
    i: int,
)
    requires
        layout.format == Format::Plain,
        plan.describes(layout, table, table.len()),
        0 <= i < table.len(),
        table[i].1.info.start <= table[i].1.info.end,
        plain_expert(table[i].0) is None || forall|layer: Seq<char>, expert: Seq<char>, p: nat|
            dotless(layer) && dotless(expert) && p < 3 ==> table[i].0 != #[trigger] written(
                "model.layers."@,
                layer,
                expert,
                p,
                "weight"@,
            ),
    ensures
        files(filed(layout, table, plan), plan, table, i, table[i].0),
{
    let full = table[i].0;
    if plain_expert(full) is Some {
        lemma_named_parts(full, "model.layers."@, "weight"@);
    }
    lemma_core_has(layout, table, i, table.len());
    let core = core_tensors(layout, table, table.len());
    let k = choose|k: int| 0 <= k < core.len() && #[trigger] core[k] == i;
    assert(plan.core@[k] == core[k]);
    assert(filed(layout, table, plan)[k] == core_view(layout, table[i]));
}

/// Nothing else gets into the core: what a packed checkpoint's core file holds
/// under a name is `language_model.` and that name in the checkpoint, with no
/// `.mlp.experts.` in it; what a plain one's holds has its own name, which
/// names no expert.
pub proof fn law_core_holds_no_expert(
    layout: ExpertLayout,
    table: Seq<(Seq<char>, LocView)>,
    plan: Plan,
    k: int,
)
    requires
        plan.describes(layout, table, table.len()),
        0 <= k < plan.core@.len(),
    ensures
        plan.core@[k] < table.len(),
        ({
            let full = table[plan.core@[k] as int].0;
            let entry = filed(layout, table, plan)[k];
            match layout.format {
                Format::Packed => full == "language_model."@ + entry.name && !within(
                    full,
                    ".mlp.experts."@,
                ),
                Format::Plain => full == entry.name && plain_expert(full) is None,
            }
        }),
{
    lemma_core_only(layout, table, table.len(), k);
    let full = table[plan.core@[k] as int].0;
    let p = "language_model."@;
    lemma_occurs(full, ".mlp.experts."@);
    if layout.format == Format::Packed {
        assert(full =~= p + full.skip(p.len() as int));
    }
}

/// How a layout's checkpoint writes the name of an expert's projection.
pub open spec fn projection_name(
    format: Format,
    layer: u16,
    expert: u16,
    proj: usize,
) -> Seq<char> {
    match format {
        Format::Plain => expert_tensor_name(
            "model.layers."@,
            "weight"@,
            layer as nat,
            expert as nat,
            proj as nat,
        ),
        Format::Packed => expert_tensor_name(
            "language_model.model.layers."@,
            "weight_packed"@,
            layer as nat,
            expert as nat,
            proj as nat,
        ),
    }
}

proof fn lemma_last_named(
    layout: ExpertLayout,
    table: Seq<(Seq<char>, LocView)>,
    t: ExpertTensor,
    n: nat,
    i: int,
)
    requires
        0 <= i < n <= table.len(),
        layout.expert_in(table[i].0) == Some(t),
    ensures
        last_named(layout, table, t, n) matches Some(j) && i <= j < n && layout.expert_in(
            table[j].0,
        ) == Some(t),
    decreases n,
{
    if layout.expert_in(table[n - 1].0) != Some(t) {
        lemma_last_named(layout, table, t, (n - 1) as nat, i);
    }
}

/// Every expert tensor has its place: where the checkpoint has the tensor of
/// an expert's gate, up or down projection and no other name for it, the plan
/// has that tensor at the expert's place among the experts of its layer, the
/// layers counted from the first that has experts. A layer or an expert that
/// the layout does not have is refused.
pub proof fn law_expert_tensors_have_their_places(
    layout: ExpertLayout,
    table: Seq<(Seq<char>, LocView)>,
    plan: Plan,
    i: int,
    layer: u16,
    expert: u16,
    proj: usize,
)
    requires
        plan.describes(layout, table, table.len()),
        0 <= i < table.len(),
        proj < 3,
        table[i].0 == projection_name(layout.format, layer, expert, proj),
    ensures
        layer < layout.dense || layer >= layout.layers || expert >= layout.experts <==> misplaced(
            layout,
            table,
            i,
        ),
        layout.dense <= layer < layout.layers && expert < layout.experts ==> {
            let at = ((layer - layout.dense) * layout.experts + expert) * 3 + proj;
            plan.experts@[at] matches Some(j) && i <= j < table.len() && (layout.expert_in(
                table[j as int].0,
            ) == layout.expert_in(table[i].0))
        },
{
    let t = ExpertTensor { layer, expert, proj };
    law_expert_name_round_trip("model.layers."@, "weight"@, layer, expert, proj);
    law_expert_name_round_trip(
        "language_model.model.layers."@,
        "weight_packed"@,
        layer,
        expert,
        proj,
    );
    assert(layout.expert_in(table[i].0) == Some(t));
    if layout.has(t) {
        lemma_last_named(layout, table, t, table.len(), i);
        let at = layout.place_of(t);
        assert(last_named(layout, table, t, table.len()) is Some);
    }
}

proof fn lemma_named_there(
    layout: ExpertLayout,
    table: Seq<(Seq<char>, LocView)>,
    t: ExpertTensor,
    n: nat,
)
    requires
        n <= table.len(),
    ensures
        last_named(layout, table, t, n) matches Some(i) ==> 0 <= i < n && layout.expert_in(
            table[i].0,
        ) == Some(t),
    decreases n,
{
    if n > 0 && layout.expert_in(table[n - 1].0) != Some(t) {
        lemma_named_there(layout, table, t, (n - 1) as nat);
    }
}

/// An expert is put together from its own tensors: what comes first is named as
/// its gate, what comes second as its up and what comes third as its down
/// projection, all of the same expert of the same layer. It is refused for a
/// projection exactly where no tensor is named as that, and for the first such.
pub proof fn law_experts_are_put_together_from_their_own(
    layout: ExpertLayout,
    table: Seq<(Seq<char>, LocView)>,
    plan: Plan,
    row: u16,
    expert: u16,
    i: int,
)
    requires
        layout.wf(),
        plan.describes(layout, table, table.len()),
        row < layout.rows(),
        expert < layout.experts,
    ensures
        ({
            let layer = (row + layout.dense) as u16;
            let named = |k: int, p: usize| layout.expert_in(table[k].0) == Some(
                ExpertTensor { layer, expert, proj: p },
            );
            match tensors_of(layout, plan, row as int, expert as int) {
                Ok((gate, up, down)) => {
                    &&& gate < table.len() && named(gate as int, 0)
                    &&& up < table.len() && named(up as int, 1)
                    &&& down < table.len() && named(down as int, 2)
                },
                Err(ConvertError::MissingProjection { proj: p }) => {
                    &&& p < 3
                    &&& 0 <= i < table.len() ==> !named(i, p)
                },
                Err(_) => false,
            }
        }),
{
    let layer = (row + layout.dense) as u16;
    let gate = ExpertTensor { layer, expert, proj: 0 };
    let up = ExpertTensor { layer, expert, proj: 1 };
    let down = ExpertTensor { layer, expert, proj: 2 };
    let at = (row * layout.experts + expert) * 3;
    assert(layout.place_of(gate) == at);
    assert(layout.place_of(up) == at + 1);
    assert(layout.place_of(down) == at + 2);
    assert(layout.has(gate) && layout.has(up) && layout.has(down));
    lemma_named_there(layout, table, gate, table.len());
    lemma_named_there(layout, table, up, table.len());
    lemma_named_there(layout, table, down, table.len());
    if 0 <= i < table.len() {
        if layout.expert_in(table[i].0) == Some(gate) {
            lemma_last_named(layout, table, gate, table.len(), i);
        }
        if layout.expert_in(table[i].0) == Some(up) {
            lemma_last_named(layout, table, up, table.len(), i);
        }
        if layout.expert_in(table[i].0) == Some(down) {
            lemma_last_named(layout, table, down, table.len(), i);
        }
    }
}

/// `p.e` does not stand in `s`, from position `k` on.
pub open spec fn plain_from(s: Seq<char>, k: int) -> bool
    decreases s.len() - k,
{
    if k + 2 >= s.len() {
        true
    } else {
        !(s[k] == 'p' && s[k + 1] == '.' && s[k + 2] == 'e') && plain_from(s, k + 1)
    }
}

proof fn lemma_plain_from(s: Seq<char>, k: int, i: int)
    requires
        plain_from(s, k),
        k <= i,
        i + 2 < s.len(),
    ensures
        !(s[i] == 'p' && s[i + 1] == '.' && s[i + 2] == 'e'),
    decreases i - k,
{
    if k < i {
        lemma_plain_from(s, k + 1, i);
    }
}

/// `.mlp.experts.` has `p.e` in it.
proof fn lemma_within_marked(s: Seq<char>)
    requires
        within(s, ".mlp.experts."@),
    ensures
        exists|i: int|
            0 <= i && i + 2 < s.len() && #[trigger] s[i] == 'p' && s[i + 1] == '.' && s[i + 2]
                == 'e',
{
    let m = ".mlp.experts."@;
    reveal_strlit(".mlp.experts.");
    let (a, b) = choose|a: Seq<char>, b: Seq<char>| s == #[trigger] (a + m + b);
    let i = a.len() as int + 3;
    assert(s[i] == m[3]);
    assert(s[i + 1] == m[4]);
    assert(s[i + 2] == m[5]);
}

/// No expert's tensor has this name, in a checkpoint of either form.
pub open spec fn no_expert(name: Seq<char>) -> bool {
    &&& plain_expert(name) is None
    &&& !within("language_model."@ + name, ".mlp.experts."@)
}

proof fn lemma_unmarked(name: Seq<char>)
    requires
        !within("language_model."@ + name, ".mlp.experts."@),
    ensures
        no_expert(name),
{
    if plain_expert(name) is Some {
        lemma_expert_within(name, "model.layers."@, "weight"@);
        let m = ".mlp.experts."@;
        let (a, b) = choose|a: Seq<char>, b: Seq<char>| name == #[trigger] (a + m + b);
        assert("language_model."@ + name =~= ("language_model."@ + a) + m + b);
    }
}

proof fn lemma_plain_name(name: Seq<char>)
    requires
        plain_from(name, 0),
    ensures
        no_expert(name),
{
    let p = "language_model."@;
    let full = p + name;
    reveal_strlit("language_model.");
    if within(full, ".mlp.experts."@) {
        lemma_within_marked(full);
        let i = choose|i: int|
            0 <= i && i + 2 < full.len() && #[trigger] full[i] == 'p' && full[i + 1] == '.'
                && full[i + 2] == 'e';
        if i >= p.len() {
            lemma_plain_from(name, 0, i - p.len());
            assert(full[i] == name[i - p.len()]);
            assert(full[i + 1] == name[i + 1 - p.len()]);
            assert(full[i + 2] == name[i + 2 - p.len()]);
        } else {
            reveal_with_fuel(plain_from, 20);
            assert(plain_from(p, 0));
            if i + 2 < p.len() {
                lemma_plain_from(p, 0, i);
                assert(full[i] == p[i]);
                assert(full[i + 1] == p[i + 1]);
                assert(full[i + 2] == p[i + 2]);
            } else if i + 1 < p.len() {
                assert(full[i] == p[13]);
            } else {
                assert(full[i] == p[14]);
            }
        }
    }
    lemma_unmarked(name);
}

proof fn lemma_plain_layer_name(l: nat, rest: Seq<char>)
    requires
        plain_from(rest, 0),
    ensures
        no_expert(layer_tensor(l, rest)),
{
    let p = "language_model."@ + "model.layers."@;
    let d = decimal(l);
    let name = layer_tensor(l, rest);
    let full = "language_model."@ + name;
    reveal_strlit("language_model.");
    reveal_strlit("model.layers.");
    reveal_strlit(".");
    lemma_decimal_digits(l);
    let head = p + d;
    let dot = "."@;
    assert(full =~= head + dot + rest);
    if within(full, ".mlp.experts."@) {
        lemma_within_marked(full);
        let i = choose|i: int|
            0 <= i && i + 2 < full.len() && #[trigger] full[i] == 'p' && full[i + 1] == '.'
                && full[i + 2] == 'e';
        if i > head.len() {
            let at = head.len() + 1;
            lemma_plain_from(rest, 0, i - at);
            assert(full[i] == rest[i - at]);
            assert(full[i + 1] == rest[i + 1 - at]);
            assert(full[i + 2] == rest[i + 2 - at]);
        } else if i == head.len() {
            assert(full[i] == dot[0]);
        } else if i >= p.len() {
            assert(full[i] == d[i - p.len()]);
            assert(digit_value(d[i - p.len()]) is Some);
        } else {
            lemma_no_p(i);
            assert(full[i] == p[i]);
        }
    }
    lemma_unmarked(name);
}

/// No `p` from position `k` on.
pub open spec fn without_p(s: Seq<char>, k: int) -> bool
    decreases s.len() - k,
{
    k >= s.len() || (s[k] != 'p' && without_p(s, k + 1))
}

proof fn lemma_without_p(s: Seq<char>, k: int, i: int)
    requires
        without_p(s, k),
        k <= i < s.len(),
    ensures
        s[i] != 'p',
    decreases i - k,
{
    if k < i {
        lemma_without_p(s, k + 1, i);
    }
}

proof fn lemma_no_p(i: int)
    requires
        0 <= i < ("language_model."@ + "model.layers."@).len(),
    ensures
        ("language_model."@ + "model.layers."@)[i] != 'p',
{
    let a = "language_model."@;
    let b = "model.layers."@;
    reveal_strlit("language_model.");
    reveal_strlit("model.layers.");
    reveal_with_fuel(without_p, 20);
    assert(without_p(a, 0));
    assert(without_p(b, 0));
    if i < a.len() {
        lemma_without_p(a, 0, i);
        assert((a + b)[i] == a[i]);
    } else {
        lemma_without_p(b, 0, i - a.len());
        assert((a + b)[i] == b[i - a.len()]);
    }
}

proof fn lemma_layer_load(cfg: Config, l: nat, k: int)
    requires
        0 <= k < cfg.layer_load(l).len(),
    ensures
        no_expert(cfg.layer_load(l)[k].0),
{
    assert(no_expert(layer_tensor(l, "input_layernorm.weight"@))) by {
        reveal_strlit("input_layernorm.weight");
        reveal_with_fuel(plain_from, 23);
        lemma_plain_layer_name(l, "input_layernorm.weight"@);
    }
    assert(no_expert(layer_tensor(l, "self_attn.q_proj.weight"@))) by {
        reveal_strlit("self_attn.q_proj.weight");
        reveal_with_fuel(plain_from, 24);
        lemma_plain_layer_name(l, "self_attn.q_proj.weight"@);
    }
    assert(no_expert(layer_tensor(l, "self_attn.k_proj.weight"@))) by {
        reveal_strlit("self_attn.k_proj.weight");
        reveal_with_fuel(plain_from, 24);
        lemma_plain_layer_name(l, "self_attn.k_proj.weight"@);
    }
    assert(no_expert(layer_tensor(l, "self_attn.v_proj.weight"@))) by {
        reveal_strlit("self_attn.v_proj.weight");
        reveal_with_fuel(plain_from, 24);
        lemma_plain_layer_name(l, "self_attn.v_proj.weight"@);
    }
    assert(no_expert(layer_tensor(l, "self_attn.o_proj.weight"@))) by {
        reveal_strlit("self_attn.o_proj.weight");
        reveal_with_fuel(plain_from, 24);
        lemma_plain_layer_name(l, "self_attn.o_proj.weight"@);
    }
    assert(no_expert(layer_tensor(l, "self_attn.q_norm.weight"@))) by {
        reveal_strlit("self_attn.q_norm.weight");
        reveal_with_fuel(plain_from, 24);
        lemma_plain_layer_name(l, "self_attn.q_norm.weight"@);
    }
    assert(no_expert(layer_tensor(l, "self_attn.k_norm.weight"@))) by {
        reveal_strlit("self_attn.k_norm.weight");
        reveal_with_fuel(plain_from, 24);
        lemma_plain_layer_name(l, "self_attn.k_norm.weight"@);
    }
    assert(no_expert(layer_tensor(l, "post_attention_layernorm.weight"@))) by {
        reveal_strlit("post_attention_layernorm.weight");
        reveal_with_fuel(plain_from, 32);
        lemma_plain_layer_name(l, "post_attention_layernorm.weight"@);
    }
    assert(no_expert(layer_tensor(l, "mlp.gate.weight"@))) by {
        reveal_strlit("mlp.gate.weight");
        reveal_with_fuel(plain_from, 16);
        lemma_plain_layer_name(l, "mlp.gate.weight"@);
    }
}

proof fn lemma_layers_load(cfg: Config, n: nat, k: int)
    requires
        0 <= k < cfg.layers_load(n).len(),
    ensures
        no_expert(cfg.layers_load(n)[k].0),
    decreases n,
{
    if n > 0 {
        let before = cfg.layers_load((n - 1) as nat);
        if k < before.len() {
            lemma_layers_load(cfg, (n - 1) as nat, k);
        } else {
            lemma_layer_load(cfg, (n - 1) as nat, k - before.len());
        }
    }
}

proof fn lemma_top_names()
    ensures
        no_expert("model.embed_tokens.weight"@),
        no_expert("lm_head.weight"@),
        no_expert("model.norm.weight"@),
{
    assert(no_expert("model.embed_tokens.weight"@)) by {
        reveal_strlit("model.embed_tokens.weight");
        reveal_with_fuel(plain_from, 26);
        lemma_plain_name("model.embed_tokens.weight"@);
    }
    assert(no_expert("lm_head.weight"@)) by {
        reveal_strlit("lm_head.weight");
        reveal_with_fuel(plain_from, 15);
        lemma_plain_name("lm_head.weight"@);
    }
    assert(no_expert("model.norm.weight"@)) by {
        reveal_strlit("model.norm.weight");
        reveal_with_fuel(plain_from, 18);
        lemma_plain_name("model.norm.weight"@);
    }
}

/// What a model loads, conversion has kept: every tensor that the model is
/// loaded from is in the core file of a plain checkpoint that has it.
pub proof fn law_loaded_tensors_are_in_the_core(
    cfg: Config,
    tied: bool,
    k: int,
    layout: ExpertLayout,
    table: Seq<(Seq<char>, LocView)>,
    plan: Plan,
    i: int,
)
    requires
        0 <= k < cfg.core_load(tied).len(),
        layout.format == Format::Plain,
        plan.describes(layout, table, table.len()),
        0 <= i < table.len(),
        table[i].1.info.start <= table[i].1.info.end,
        table[i].0 == cfg.core_load(tied)[k].0,
    ensures
        files(filed(layout, table, plan), plan, table, i, cfg.core_load(tied)[k].0),
{
    let layers = cfg.layers_load(cfg.layers as nat);
    lemma_top_names();
    if k < layers.len() {
        lemma_layers_load(cfg, cfg.layers as nat, k);
    }
    law_plain_conversion_loses_nothing(layout, table, plan, i);
}

proof fn lemma_kimi_layer_load(cfg: KimiConfig, l: nat, k: int)
    requires
        0 <= k < cfg.layer_load(l).len(),
    ensures
        no_expert(cfg.layer_load(l)[k].0),
{
    assert(no_expert(layer_tensor(l, "self_attn.kv_b_proj.weight"@))) by {
        reveal_strlit("self_attn.kv_b_proj.weight");
        reveal_with_fuel(plain_from, 27);
        lemma_plain_layer_name(l, "self_attn.kv_b_proj.weight"@);
    }
    assert(no_expert(layer_tensor(l, "mlp.gate_proj.weight"@))) by {
        reveal_strlit("mlp.gate_proj.weight");
        reveal_with_fuel(plain_from, 21);
        lemma_plain_layer_name(l, "mlp.gate_proj.weight"@);
    }
    assert(no_expert(layer_tensor(l, "mlp.up_proj.weight"@))) by {
        reveal_strlit("mlp.up_proj.weight");
        reveal_with_fuel(plain_from, 19);
        lemma_plain_layer_name(l, "mlp.up_proj.weight"@);
    }
    assert(no_expert(layer_tensor(l, "mlp.down_proj.weight"@))) by {
        reveal_strlit("mlp.down_proj.weight");
        reveal_with_fuel(plain_from, 21);
        lemma_plain_layer_name(l, "mlp.down_proj.weight"@);
    }
    assert(no_expert(layer_tensor(l, "mlp.gate.weight"@))) by {
        reveal_strlit("mlp.gate.weight");
        reveal_with_fuel(plain_from, 16);
        lemma_plain_layer_name(l, "mlp.gate.weight"@);
    }
    assert(no_expert(layer_tensor(l, "mlp.gate.e_score_correction_bias"@))) by {
        reveal_strlit("mlp.gate.e_score_correction_bias");
        reveal_with_fuel(plain_from, 33);
        lemma_plain_layer_name(l, "mlp.gate.e_score_correction_bias"@);
    }
    assert(no_expert(layer_tensor(l, "mlp.shared_experts.gate_proj.weight"@))) by {
        reveal_strlit("mlp.shared_experts.gate_proj.weight");
        reveal_with_fuel(plain_from, 36);
        lemma_plain_layer_name(l, "mlp.shared_experts.gate_proj.weight"@);
    }
    assert(no_expert(layer_tensor(l, "mlp.shared_experts.up_proj.weight"@))) by {
        reveal_strlit("mlp.shared_experts.up_proj.weight");
        reveal_with_fuel(plain_from, 34);
        lemma_plain_layer_name(l, "mlp.shared_experts.up_proj.weight"@);
    }
    assert(no_expert(layer_tensor(l, "mlp.shared_experts.down_proj.weight"@))) by {
        reveal_strlit("mlp.shared_experts.down_proj.weight");
        reveal_with_fuel(plain_from, 36);
        lemma_plain_layer_name(l, "mlp.shared_experts.down_proj.weight"@);
    }
    assert(no_expert(layer_tensor(l, "input_layernorm.weight"@))) by {
        reveal_strlit("input_layernorm.weight");
        reveal_with_fuel(plain_from, 23);
        lemma_plain_layer_name(l, "input_layernorm.weight"@);
    }
    assert(no_expert(layer_tensor(l, "post_attention_layernorm.weight"@))) by {
        reveal_strlit("post_attention_layernorm.weight");
        reveal_with_fuel(plain_from, 32);
        lemma_plain_layer_name(l, "post_attention_layernorm.weight"@);
    }
    assert(no_expert(layer_tensor(l, "self_attn.q_a_proj.weight"@))) by {
        reveal_strlit("self_attn.q_a_proj.weight");
        reveal_with_fuel(plain_from, 26);
        lemma_plain_layer_name(l, "self_attn.q_a_proj.weight"@);
    }
    assert(no_expert(layer_tensor(l, "self_attn.q_a_layernorm.weight"@))) by {
        reveal_strlit("self_attn.q_a_layernorm.weight");
        reveal_with_fuel(plain_from, 31);
        lemma_plain_layer_name(l, "self_attn.q_a_layernorm.weight"@);
    }
    assert(no_expert(layer_tensor(l, "self_attn.q_b_proj.weight"@))) by {
        reveal_strlit("self_attn.q_b_proj.weight");
        reveal_with_fuel(plain_from, 26);
        lemma_plain_layer_name(l, "self_attn.q_b_proj.weight"@);
    }
    assert(no_expert(layer_tensor(l, "self_attn.kv_a_proj_with_mqa.weight"@))) by {
        reveal_strlit("self_attn.kv_a_proj_with_mqa.weight");
        reveal_with_fuel(plain_from, 36);
        lemma_plain_layer_name(l, "self_attn.kv_a_proj_with_mqa.weight"@);
    }
    assert(no_expert(layer_tensor(l, "self_attn.kv_a_layernorm.weight"@))) by {
        reveal_strlit("self_attn.kv_a_layernorm.weight");
        reveal_with_fuel(plain_from, 32);
        lemma_plain_layer_name(l, "self_attn.kv_a_layernorm.weight"@);
    }
    assert(no_expert(layer_tensor(l, "self_attn.o_proj.weight"@))) by {
        reveal_strlit("self_attn.o_proj.weight");
        reveal_with_fuel(plain_from, 24);
        lemma_plain_layer_name(l, "self_attn.o_proj.weight"@);
    }
}

proof fn lemma_kimi_layers_load(cfg: KimiConfig, n: nat, k: int)
    requires
        0 <= k < cfg.layers_load(n).len(),
    ensures
        no_expert(cfg.layers_load(n)[k].0),
    decreases n,
{
    if n > 0 {
        let before = cfg.layers_load((n - 1) as nat);
        if k < before.len() {
            lemma_kimi_layers_load(cfg, (n - 1) as nat, k);
        } else {
            lemma_kimi_layer_load(cfg, (n - 1) as nat, k - before.len());
        }
    }
}

/// What a model loads, conversion has kept: every tensor that the model is
/// loaded from is in the core file of a packed checkpoint that has it behind
/// `language_model.`.
pub proof fn law_kimi_loaded_tensors_are_in_the_core(
    cfg: KimiConfig,
    k: int,
    layout: ExpertLayout,
    table: Seq<(Seq<char>, LocView)>,
    plan: Plan,
    i: int,
)
    requires
        0 <= k < cfg.core_load().len(),
        layout.format == Format::Packed,
        plan.describes(layout, table, table.len()),
        0 <= i < table.len(),
        table[i].1.info.start <= table[i].1.info.end,
        table[i].0 == "language_model."@ + cfg.core_load()[k].0,
    ensures
        files(filed(layout, table, plan), plan, table, i, cfg.core_load()[k].0),
{
    let layers = cfg.layers_load(cfg.layers as nat);
    lemma_top_names();
    if k < layers.len() {
        lemma_kimi_layers_load(cfg, cfg.layers as nat, k);
    }
    law_packed_conversion_loses_nothing(layout, table, plan, i, cfg.core_load()[k].0);
}

} // verus!
