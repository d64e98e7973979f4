//! What goes to the device as bytes, read back: the expert table of a launch,
//! and the embedding of a token.

use crate::bytes::{
    law_le_bytes_of_value, law_le_round_trip, le_bytes, le_value, lemma_le_bytes_len,
    lemma_span_values, span_of,
};
use crate::load::{bf16_of_f32, embedding_row};
use crate::pager::ExpertHandle;
use crate::steps::{address_bytes, address_of, held, weight_bytes, Pick};
use vstd::prelude::*;

verus! {

/// The lowest byte of a number comes first: byte `i` is its digit for
/// 256 to the `i`.
pub proof fn law_lowest_byte_first(n: nat, k: nat, i: int)
    requires
        0 <= i < k,
    ensures
        le_bytes(n, k).len() == k,
        le_bytes(n, k)[i] == (n / span_of(i as nat)) % 256,
    decreases k,
{
    lemma_le_bytes_len(n, k);
    if i > 0 {
        law_lowest_byte_first(n / 256, (k - 1) as nat, i - 1);
        let s = span_of((i - 1) as nat) as int;
        lemma_span_positive((i - 1) as nat);
        vstd::arithmetic::div_mod::lemma_div_denominator(n as int, 256, s);
        assert(le_bytes(n, k)[i] == le_bytes(n / 256, (k - 1) as nat)[i - 1]);
    } else {
        assert(n / 1 == n);
    }
}

proof fn lemma_span_positive(k: nat)
    ensures
        span_of(k) > 0,
    decreases k,
{
    if k > 0 {
        lemma_span_positive((k - 1) as nat);
    }
}

proof fn lemma_address(handles: Seq<ExpertHandle>, e: u16, i: nat)
    requires
        exists|k: int| i <= k < handles.len() && (#[trigger] handles[k]).expert == e,
    ensures
        exists|k: int|
            0 <= k < handles.len() && (#[trigger] handles[k]).expert == e && handles[k].dev
                == address_of(handles, e, i),
    decreases handles.len() - i,
{
    if i < handles.len() && handles[i as int].expert != e {
        lemma_address(handles, e, i + 1);
    }
}

proof fn lemma_addresses(handles: Seq<ExpertHandle>, picks: Seq<Pick>, n: nat, j: int)
    requires
        0 <= j < n <= picks.len(),
    ensures
        address_bytes(handles, picks, n).len() == 8 * n,
        weight_bytes(picks, n).len() == 4 * n,
        le_value(address_bytes(handles, picks, n).subrange(8 * j, 8 * j + 8)) == address_of(
            handles,
            picks[j].expert,
            0,
        ),
        le_value(weight_bytes(picks, n).subrange(4 * j, 4 * j + 4)) == picks[j].weight,
    decreases n,
{
    let m = (n - 1) as nat;
    let a = address_bytes(handles, picks, m);
    let w = weight_bytes(picks, m);
    let addr = address_of(handles, picks[n - 1].expert, 0) as nat;
    let weight = picks[n - 1].weight as nat;
    lemma_span_values();
    law_le_round_trip(addr, 8);
    law_le_round_trip(weight, 4);
    lemma_lens(handles, picks, m);
    if j == m {
        assert(address_bytes(handles, picks, n).subrange(8 * j, 8 * j + 8) =~= le_bytes(addr, 8));
        assert(weight_bytes(picks, n).subrange(4 * j, 4 * j + 4) =~= le_bytes(weight, 4));
    } else {
        lemma_addresses(handles, picks, m, j);
        assert(address_bytes(handles, picks, n).subrange(8 * j, 8 * j + 8) =~= a.subrange(
            8 * j,
            8 * j + 8,
        ));
        assert(weight_bytes(picks, n).subrange(4 * j, 4 * j + 4) =~= w.subrange(4 * j, 4 * j + 4));
    }
}

proof fn lemma_lens(handles: Seq<ExpertHandle>, picks: Seq<Pick>, n: nat)
    ensures
        address_bytes(handles, picks, n).len() == 8 * n,
        weight_bytes(picks, n).len() == 4 * n,
    decreases n,
{
    if n > 0 {
        lemma_lens(handles, picks, (n - 1) as nat);
        lemma_le_bytes_len(address_of(handles, picks[n - 1].expert, 0) as nat, 8);
        lemma_le_bytes_len(picks[n - 1].weight as nat, 4);
    }
}

/// Every pick goes to the device with its own expert and its own weight: the
/// address at place `j` is that of a handle for the expert of pick `j`, and the
/// weight at place `j` is that pick's.
pub proof fn law_expert_table_pairs_each_pick(
    handles: Seq<ExpertHandle>,
    picks: Seq<Pick>,
    j: int,
)
    requires
        0 <= j < picks.len(),
        held(handles, picks[j].expert),
    ensures
        ({
            let addresses = address_bytes(handles, picks, picks.len());
            let weights = weight_bytes(picks, picks.len());
            &&& addresses.len() == 8 * picks.len()
            &&& weights.len() == 4 * picks.len()
            &&& le_value(weights.subrange(4 * j, 4 * j + 4)) == picks[j].weight
            &&& exists|k: int|
                0 <= k < handles.len() && (#[trigger] handles[k]).expert == picks[j].expert
                    && le_value(addresses.subrange(8 * j, 8 * j + 8)) == handles[k].dev
        }),
{
    lemma_addresses(handles, picks, picks.len(), j);
    lemma_address(handles, picks[j].expert, 0);
}

pub proof fn lemma_widened(half: Seq<u8>)
    requires
        half.len() == 2,
    ensures
        le_bytes(le_value(half) * 0x1_0000, 4) == seq![0u8, 0u8] + half,
{
    let wide = seq![0u8, 0u8] + half;
    law_le_bytes_of_value(wide);
    let rest = wide.skip(1);
    assert(rest.skip(1) =~= half);
    assert(rest[0] == 0 && wide[0] == 0);
    assert(le_value(rest) == 256 * le_value(rest.skip(1)));
    assert(le_value(wide) == 256 * le_value(rest));
}

proof fn lemma_embedding(table: Seq<u8>, hidden: nat, token: nat, n: nat, i: int)
    requires
        0 <= i < n <= hidden,
        (token * hidden + hidden) * 2 <= table.len(),
    ensures
        embedding_row(table, hidden, token, n).len() == 4 * n,
        ({
            let row = embedding_row(table, hidden, token, n);
            let at = 2 * (token * hidden + i);
            &&& row[4 * i] == 0 && row[4 * i + 1] == 0
            &&& row[4 * i + 2] == table[at]
            &&& row[4 * i + 3] == table[at + 1]
        }),
    decreases n,
{
    let m = (n - 1) as nat;
    assert(0 <= token * hidden) by (nonlinear_arith)
        requires
            0 <= token,
            0 <= hidden,
    ;
    let at = (token * hidden + n - 1) * 2;
    let half = table.subrange(at as int, at + 2);
    lemma_widened(half);
    let before = embedding_row(table, hidden, token, m);
    lemma_row_len(table, hidden, token, m);
    if i < m {
        lemma_embedding(table, hidden, token, m, i);
    }
    let row = embedding_row(table, hidden, token, n);
    assert(row =~= before + (seq![0u8, 0u8] + half));
}

proof fn lemma_row_len(table: Seq<u8>, hidden: nat, token: nat, n: nat)
    ensures
        embedding_row(table, hidden, token, n).len() == 4 * n,
    decreases n,
{
    if n > 0 {
        lemma_row_len(table, hidden, token, (n - 1) as nat);
        let at = (token * hidden + n - 1) * 2;
        lemma_le_bytes_len(le_value(table.subrange(at as int, at + 2)) * 0x1_0000, 4);
    }
}

/// The embedding of a token is its row of the table and no other: number `i` of
/// it has the two bytes of number `i` of that row as its upper half, and zeros
/// below them.
pub proof fn law_embedding_is_the_tokens_own_row(
    table: Seq<u8>,
    hidden: nat,
    token: nat,
    i: int,
)
    requires
        0 <= i < hidden,
        (token + 1) * hidden * 2 <= table.len(),
    ensures
        ({
            let row = embedding_row(table, hidden, token, hidden);
            let own = table.skip(2 * (token * hidden) as int).take(2 * hidden as int);
            &&& row.len() == 4 * hidden
            &&& row[4 * i] == 0 && row[4 * i + 1] == 0
            &&& row[4 * i + 2] == own[2 * i]
            &&& row[4 * i + 3] == own[2 * i + 1]
        }),
{
    assert((token + 1) * hidden == token * hidden + hidden) by (nonlinear_arith);
    assert(0 <= token * hidden) by (nonlinear_arith)
        requires
            0 <= token,
            0 <= hidden,
    ;
    lemma_embedding(table, hidden, token, hidden, i);
}

/// A number is rounded to the nearest that has half its bits, a tie upwards; one
/// that has no bits in its lower half stays what it is.
pub proof fn law_rounding_is_to_the_nearest(b: u32)
    requires
        b < 0xffff_8000,
    ensures
        -0x8000 < bf16_of_f32(b) * 0x1_0000 - b <= 0x8000,
        b % 0x1_0000 == 0 ==> bf16_of_f32(b) * 0x1_0000 == b,
{
}

/// Rounding keeps the order of numbers.
pub proof fn law_rounding_keeps_the_order(a: u32, b: u32)
    requires
        a <= b < 0xffff_8000,
    ensures
        bf16_of_f32(a) <= bf16_of_f32(b),
{
}

} // verus!
