//! Tensor names: which of a checkpoint's tensors are routed experts.

use crate::text::{
    after_prefix, chars_of, cut_at, decimal, digit_value, first_index, law_decimal_round_trip,
    lemma_decimal_digits, lemma_first_index, parse_unsigned, parsed_unsigned, split_once,
    strip_prefix, string_of,
};
use vstd::prelude::*;
use vstd::string::*;

verus! {

/// Which of an expert's three projections a tensor is.
#[derive(Debug, Clone, Copy, PartialEq, Eq, Structural)]
pub struct ExpertTensor {
    pub layer: u16,
    pub expert: u16,
    /// 0: gate_proj, 1: up_proj, 2: down_proj.
    pub proj: usize,
}

/// The name of a projection.
pub open spec fn proj_name(proj: nat) -> Seq<char> {
    if proj == 0 {
        "gate_proj."@
    } else if proj == 1 {
        "up_proj."@
    } else {
        "down_proj."@
    }
}

/// The projection that `rest` names, with `suffix` behind its name.
pub open spec fn proj_of(rest: Seq<char>, suffix: Seq<char>) -> Option<nat> {
    if rest == proj_name(0) + suffix {
        Some(0)
    } else if rest == proj_name(1) + suffix {
        Some(1)
    } else if rest == proj_name(2) + suffix {
        Some(2)
    } else {
        None
    }
}

/// The expert tensor that `name` names: `prefix`, the layer, `.mlp.experts.`,
/// the expert, `.`, the projection and `suffix`.
pub open spec fn expert_named(name: Seq<char>, prefix: Seq<char>, suffix: Seq<char>) -> Option<
    ExpertTensor,
> {
    match after_prefix(name, prefix) {
        None => None,
        Some(rest) => match cut_at(rest, '.') {
            None => None,
            Some((layer, rest)) => match after_prefix(rest, "mlp.experts."@) {
                None => None,
                Some(rest) => match cut_at(rest, '.') {
                    None => None,
                    Some((expert, rest)) => match (
                        proj_of(rest, suffix),
                        parsed_unsigned(layer, u16::MAX as nat),
                        parsed_unsigned(expert, u16::MAX as nat),
                    ) {
                        (Some(p), Some(l), Some(e)) => Some(
                            ExpertTensor { layer: l as u16, expert: e as u16, proj: p as usize },
                        ),
                        _ => None,
                    },
                },
            },
        },
    }
}

/// The expert tensors of a checkpoint with plain weights.
pub open spec fn plain_expert(name: Seq<char>) -> Option<ExpertTensor> {
    expert_named(name, "model.layers."@, "weight"@)
}

/// The expert tensors of a checkpoint with packed weights.
pub open spec fn packed_expert(name: Seq<char>) -> Option<ExpertTensor> {
    expert_named(name, "language_model.model.layers."@, "weight_packed"@)
}

fn parse_named(name: &str, prefix: &str, suffix: &str) -> (t: Option<ExpertTensor>)
    ensures
        t == expert_named(name@, prefix@, suffix@),
{
    let chars: Vec<char> = chars_of(name);
    let rest: &[char] = match strip_prefix(chars.as_slice(), prefix) {
        Some(rest) => rest,
        None => {
            return None;
        },
    };
    let (layer, rest): (&[char], &[char]) = match split_once(rest, '.') {
        Some(parts) => parts,
        None => {
            return None;
        },
    };
    let rest: &[char] = match strip_prefix(rest, "mlp.experts.") {
        Some(rest) => rest,
        None => {
            return None;
        },
    };
    let (expert, rest): (&[char], &[char]) = match split_once(rest, '.') {
        Some(parts) => parts,
        None => {
            return None;
        },
    };
    let tail: String = string_of(rest);
    let gate: String = String::from_str("gate_proj.").concat(suffix);
    let up: String = String::from_str("up_proj.").concat(suffix);
    let down: String = String::from_str("down_proj.").concat(suffix);
    let proj: usize = if tail == gate {
        0
    } else if tail == up {
        1
    } else if tail == down {
        2
    } else {
        return None;
    };
    match (parse_unsigned(layer, 0xffff), parse_unsigned(expert, 0xffff)) {
        (Some(l), Some(e)) => Some(ExpertTensor { layer: l as u16, expert: e as u16, proj }),
        _ => None,
    }
}

/// A tensor is one of three projections.
pub proof fn lemma_three_projections(name: Seq<char>, prefix: Seq<char>, suffix: Seq<char>)
    ensures
        expert_named(name, prefix, suffix) matches Some(t) ==> t.proj < 3,
{
}

/// Is this an expert weight? Its layer, expert and projection.
pub fn parse_expert(name: &str) -> (t: Option<ExpertTensor>)
    ensures
        t == plain_expert(name@),
{
    parse_named(name, "model.layers.", "weight")
}

/// Is this a packed expert weight? Its layer, expert and projection.
pub fn parse_expert_packed(name: &str) -> (t: Option<ExpertTensor>)
    ensures
        t == packed_expert(name@),
{
    parse_named(name, "language_model.model.layers.", "weight_packed")
}

/// The name of an expert tensor.
pub open spec fn expert_tensor_name(
    prefix: Seq<char>,
    suffix: Seq<char>,
    layer: nat,
    expert: nat,
    proj: nat,
) -> Seq<char> {
    prefix + (decimal(layer) + (seq!['.'] + ("mlp.experts."@ + (decimal(expert) + (seq!['.'] + (
    proj_name(proj) + suffix))))))
}

proof fn lemma_strip(prefix: Seq<char>, rest: Seq<char>)
    ensures
        after_prefix(prefix + rest, prefix) == Some(rest),
{
    assert((prefix + rest).take(prefix.len() as int) =~= prefix);
    assert((prefix + rest).skip(prefix.len() as int) =~= rest);
}

proof fn lemma_cut_decimal(n: nat, rest: Seq<char>)
    ensures
        cut_at(decimal(n) + (seq!['.'] + rest), '.') == Some((decimal(n), rest)),
{
    lemma_decimal_digits(n);
    let d = decimal(n);
    let s = d + (seq!['.'] + rest);
    assert forall|j: int| 0 <= j < d.len() implies s[j] != '.' by {
        assert(digit_value(d[j]) is Some);
    }
    lemma_first_index(s, '.', d.len() as int);
    assert(s.take(d.len() as int) =~= d);
    assert(s.skip(d.len() as int + 1) =~= rest);
}

/// The name of an expert tensor names that tensor: layer, expert and
/// projection are read back as they were written.
pub proof fn law_expert_name_round_trip(
    prefix: Seq<char>,
    suffix: Seq<char>,
    layer: u16,
    expert: u16,
    proj: usize,
)
    requires
        proj < 3,
    ensures
        expert_named(
            expert_tensor_name(prefix, suffix, layer as nat, expert as nat, proj as nat),
            prefix,
            suffix,
        ) == Some(ExpertTensor { layer, expert, proj }),
{
    let tail = proj_name(proj as nat) + suffix;
    let c = decimal(expert as nat) + (seq!['.'] + tail);
    let b = "mlp.experts."@ + c;
    let a = decimal(layer as nat) + (seq!['.'] + b);
    lemma_strip(prefix, a);
    lemma_cut_decimal(layer as nat, b);
    lemma_strip("mlp.experts."@, c);
    lemma_cut_decimal(expert as nat, tail);
    law_decimal_round_trip(layer as nat, u16::MAX as nat);
    law_decimal_round_trip(expert as nat, u16::MAX as nat);
    reveal_strlit("gate_proj.");
    reveal_strlit("up_proj.");
    reveal_strlit("down_proj.");
    assert(proj_of(tail, suffix) == Some(proj as nat)) by {
        if proj == 1 {
            assert(tail[0] == 'u');
            assert((proj_name(0) + suffix)[0] == 'g');
        } else if proj == 2 {
            assert(tail[0] == 'd');
            assert((proj_name(0) + suffix)[0] == 'g');
            assert((proj_name(1) + suffix)[0] == 'u');
        }
    }
}

/// `s` ends with `end`.
pub open spec fn ends_with(s: Seq<char>, end: Seq<char>) -> bool {
    end.len() <= s.len() && s.skip(s.len() - end.len()) == end
}

proof fn lemma_ends_with_transitive(a: Seq<char>, b: Seq<char>, c: Seq<char>)
    requires
        ends_with(a, b),
        ends_with(b, c),
    ensures
        ends_with(a, c),
{
    assert(a.skip(a.len() - c.len()) =~= a.skip(a.len() - b.len()).skip(b.len() - c.len()));
}

proof fn lemma_cut_end(s: Seq<char>, c: char, head: Seq<char>, tail: Seq<char>)
    requires
        cut_at(s, c) == Some((head, tail)),
    ensures
        ends_with(s, tail),
{
    lemma_first_index_bounds(s, c);
    assert(s.skip(s.len() - tail.len()) =~= tail);
}

proof fn lemma_first_index_bounds(s: Seq<char>, c: char)
    ensures
        0 <= first_index(s, c) <= s.len(),
    decreases s.len(),
{
    if s.len() > 0 && s[0] != c {
        lemma_first_index_bounds(s.skip(1), c);
    }
}

/// A packed expert's name ends in `_packed`.
pub proof fn lemma_packed_ending(name: Seq<char>)
    requires
        packed_expert(name) is Some,
    ensures
        ends_with(name, "_packed"@),
{
    reveal_strlit("_packed");
    reveal_strlit("weight_packed");
    let w = "weight_packed"@;
    let p = "language_model.model.layers."@;
    match after_prefix(name, p) {
        Some(a) => {
            assert(name.skip(name.len() - a.len()) =~= a);
            match cut_at(a, '.') {
                Some((layer, b)) => {
                    lemma_cut_end(a, '.', layer, b);
                    match after_prefix(b, "mlp.experts."@) {
                        Some(c) => {
                            assert(b.skip(b.len() - c.len()) =~= c);
                            match cut_at(c, '.') {
                                Some((expert, d)) => {
                                    lemma_cut_end(c, '.', expert, d);
                                    assert(d.skip(d.len() - 7) =~= "_packed"@);
                                    lemma_ends_with_transitive(c, d, "_packed"@);
                                    lemma_ends_with_transitive(b, c, "_packed"@);
                                    lemma_ends_with_transitive(a, b, "_packed"@);
                                    lemma_ends_with_transitive(name, a, "_packed"@);
                                },
                                None => {},
                            }
                        },
                        None => {},
                    }
                },
                None => {},
            }
        },
        None => {},
    }
}

} // verus!
