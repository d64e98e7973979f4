//! `q4`: symmetric 4-bit groupwise quantization, group size 64 (`q4g64`) or
//! 32.
//!
//! Weights are row-major `[rows, cols]`; groups run along the input (col)
//! axis, so a GEMV kernel walking one row streams scales and nibbles
//! sequentially. Per group of values: one f16 scale, then half as many bytes
//! of nibbles (value `i` lives in byte `i/2`; even `i` = low nibble). Nibbles
//! store `q + 8` where `q = clamp(round(x/scale), -8, 7)`.
//!
//! Layout per tensor: all scales first (`rows * cols/group` f16, row-major),
//! then all nibble bytes (`rows * cols/2`). Keeping the two regions separate
//! (rather than interleaved) lets the kernel vectorize loads of each.
//!
//! `cols` must be a multiple of the group size.

use crate::bytes::{le_bytes, le_value, push_le, read_le};
use vstd::prelude::*;

verus! {

pub const GROUP: usize = 64;

/// Why a tensor cannot be quantized or dequantized.
#[derive(Debug, Clone, Copy, PartialEq, Eq, Structural)]
pub enum QuantError {
    /// `cols` is not a multiple of the group size.
    Cols { cols: usize },
    /// The values are not `rows * cols` many.
    Src { len: usize },
    /// The buffer is not as long as the quantized tensor.
    Dst { len: usize },
}

/// Bytes that a quantized `[rows, cols]` tensor with groups of `group`
/// occupies: two for each group's scale, half a byte for each value.
pub open spec fn q4_size(rows: nat, cols: nat, group: nat) -> nat {
    rows * (cols / group) * 2 + rows * cols / 2
}

/// A machine word counts the values of a tensor and the bytes it occupies.
pub open spec fn q4_fits(rows: nat, cols: nat, group: nat) -> bool {
    rows * cols <= usize::MAX && q4_size(rows, cols, group) <= usize::MAX
}

pub proof fn lemma_q4_size_parts(rows: nat, cols: nat, group: nat)
    requires
        group > 0,
    ensures
        rows * (cols / group) <= rows * cols,
        0 <= rows * (cols / group),
        0 <= rows * cols,
{
    assert(cols / group <= cols) by (nonlinear_arith)
        requires
            group > 0,
    ;
    assert(0 <= rows * (cols / group) <= rows * cols) by (nonlinear_arith)
        requires
            0 <= cols / group <= cols,
            0 <= rows,
    ;
}

/// Bytes a quantized `[rows, cols]` tensor occupies: scales then data.
pub fn q4_bytes(rows: usize, cols: usize, group: usize) -> (n: usize)
    requires
        group > 0,
        q4_fits(rows as nat, cols as nat, group as nat),
    ensures
        n == q4_size(rows as nat, cols as nat, group as nat),
{
    proof {
        lemma_q4_size_parts(rows as nat, cols as nat, group as nat);
    }
    rows * (cols / group) * 2 + rows * cols / 2
}

/// Bytes a quantized `[rows, cols]` tensor occupies with groups of 64.
pub fn q4g64_bytes(rows: usize, cols: usize) -> (n: usize)
    requires
        q4_fits(rows as nat, cols as nat, GROUP as nat),
    ensures
        n == q4_size(rows as nat, cols as nat, GROUP as nat),
{
    q4_bytes(rows, cols, GROUP)
}

/// The dimensions fit together: whole groups in a row, `src` values, and a
/// buffer of exactly the quantized size.
pub fn check_dims(rows: usize, cols: usize, group: usize, src: usize, dst: usize) -> (r: Result<
    (),
    QuantError,
>)
    requires
        group > 0,
    ensures
        r == (if cols % group != 0 {
            Err(QuantError::Cols { cols })
        } else if src != rows * cols {
            Err(QuantError::Src { len: src })
        } else if dst != q4_size(rows as nat, cols as nat, group as nat) {
            Err(QuantError::Dst { len: dst })
        } else {
            Ok(())
        }),
{
    proof {
        lemma_q4_size_parts(rows as nat, cols as nat, group as nat);
    }
    if cols % group != 0 {
        return Err(QuantError::Cols { cols });
    }
    let n: usize = match rows.checked_mul(cols) {
        Some(n) => n,
        None => {
            return Err(QuantError::Src { len: src });
        },
    };
    if src != n {
        return Err(QuantError::Src { len: src });
    }
    let groups: usize = rows * (cols / group);
    let size: u128 = groups as u128 * 2 + (n / 2) as u128;
    if dst as u128 != size {
        return Err(QuantError::Dst { len: dst });
    }
    Ok(())
}

/// The scales of a tensor, two bytes each.
pub open spec fn scale_bytes(scales: Seq<u16>) -> Seq<u8>
    decreases scales.len(),
{
    if scales.len() == 0 {
        Seq::empty()
    } else {
        scale_bytes(scales.drop_last()) + le_bytes(scales.last() as nat, 2)
    }
}

/// Nibbles in pairs: the even one in the low half of its byte.
pub open spec fn nibble_bytes(nibbles: Seq<u8>) -> Seq<u8> {
    Seq::new(nibbles.len() / 2, |i: int| (nibbles[2 * i] + 16 * nibbles[2 * i + 1]) as u8)
}

/// A quantized tensor: all scales, then all nibbles.
pub open spec fn q4_region(scales: Seq<u16>, nibbles: Seq<u8>) -> Seq<u8> {
    scale_bytes(scales) + nibble_bytes(nibbles)
}

proof fn lemma_scale_bytes(scales: Seq<u16>)
    ensures
        scale_bytes(scales).len() == 2 * scales.len(),
        forall|i: int|
            #![trigger scales[i]]
            0 <= i < scales.len() ==> le_value(scale_bytes(scales).subrange(2 * i, 2 * i + 2))
                == scales[i],
    decreases scales.len(),
{
    if scales.len() > 0 {
        let front = scales.drop_last();
        lemma_scale_bytes(front);
        crate::bytes::lemma_span_values();
        crate::bytes::law_le_round_trip(scales.last() as nat, 2);
        let s = scale_bytes(scales);
        let t = scale_bytes(front);
        assert forall|i: int| #![trigger scales[i]] 0 <= i < scales.len() implies le_value(
            s.subrange(2 * i, 2 * i + 2),
        ) == scales[i] by {
            if i < front.len() {
                assert(front[i] == scales[i]);
                assert(s.subrange(2 * i, 2 * i + 2) =~= t.subrange(2 * i, 2 * i + 2));
            } else {
                assert(s.subrange(2 * i, 2 * i + 2) =~= le_bytes(scales.last() as nat, 2));
            }
        }
    }
}

/// Lays out a quantized tensor from its group scales (f16 bits) and its
/// nibbles (`q + 8` for each value).
pub fn q4_assemble(scales: &[u16], nibbles: &[u8]) -> (region: Vec<u8>)
    requires
        nibbles@.len() % 2 == 0,
        forall|i: int| 0 <= i < nibbles@.len() ==> #[trigger] nibbles@[i] < 16,
    ensures
        region@ == q4_region(scales@, nibbles@),
{
    let mut region: Vec<u8> = Vec::new();
    let mut i: usize = 0;
    assert(scales@.take(0) =~= Seq::<u16>::empty());
    while i < scales.len()
        invariant
            i <= scales@.len(),
            region@ == scale_bytes(scales@.take(i as int)),
        decreases scales@.len() - i,
    {
        push_le(&mut region, scales[i] as u64, 2);
        i += 1;
        assert(scales@.take(i as int).drop_last() =~= scales@.take(i - 1));
    }
    assert(scales@.take(i as int) =~= scales@);
    let mut j: usize = 0;
    assert(region@ =~= scale_bytes(scales@) + nibble_bytes(nibbles@).take(0));
    while j < nibbles.len() / 2
        invariant
            j <= nibbles@.len() / 2,
            nibbles@.len() % 2 == 0,
            forall|k: int| 0 <= k < nibbles@.len() ==> #[trigger] nibbles@[k] < 16,
            region@ == scale_bytes(scales@) + nibble_bytes(nibbles@).take(j as int),
        decreases nibbles@.len() - j,
    {
        region.push(nibbles[2 * j] + 16 * nibbles[2 * j + 1]);
        j += 1;
        assert(region@ =~= scale_bytes(scales@) + nibble_bytes(nibbles@).take(j as int));
    }
    assert(nibble_bytes(nibbles@).take(j as int) =~= nibble_bytes(nibbles@));
    region
}

/// Scale `i` of a quantized tensor.
pub open spec fn scale_at(region: Seq<u8>, i: int) -> nat {
    le_value(region.subrange(2 * i, 2 * i + 2))
}

/// Nibble `i` of a quantized tensor whose first `n_scales` are scales.
pub open spec fn nibble_at(region: Seq<u8>, n_scales: nat, i: int) -> u8 {
    let b = region[2 * n_scales + i / 2];
    if i % 2 == 0 {
        b % 16
    } else {
        b / 16
    }
}

/// Takes a quantized tensor apart again: its first `n_scales` scales and all
/// nibbles behind them.
pub fn q4_extract(region: &[u8], n_scales: usize) -> (parts: (Vec<u16>, Vec<u8>))
    requires
        2 * n_scales <= region@.len(),
        2 * (region@.len() - 2 * n_scales) <= usize::MAX,
    ensures
        parts.0@.len() == n_scales,
        forall|i: int| 0 <= i < n_scales ==> #[trigger] parts.0@[i] == scale_at(region@, i),
        parts.1@.len() == 2 * (region@.len() - 2 * n_scales),
        forall|i: int|
            0 <= i < parts.1@.len() ==> #[trigger] parts.1@[i] == nibble_at(
                region@,
                n_scales as nat,
                i,
            ),
{
    let len: usize = region.len();
    let mut scales: Vec<u16> = Vec::new();
    let mut i: usize = 0;
    while i < n_scales
        invariant
            i <= n_scales,
            2 * n_scales <= len,
            len == region@.len(),
            scales@.len() == i,
            forall|k: int| 0 <= k < i ==> #[trigger] scales@[k] == scale_at(region@, k),
        decreases n_scales - i,
    {
        let s: u64 = read_le(region, 2 * i, 2);
        proof {
            crate::bytes::law_le_bytes_of_value(region@.subrange(2 * i, 2 * i + 2));
            crate::bytes::lemma_span_values();
        }
        scales.push(s as u16);
        i += 1;
    }
    let mut nibbles: Vec<u8> = Vec::new();
    let mut j: usize = 2 * n_scales;
    while j < len
        invariant
            2 * n_scales <= j <= len,
            len == region@.len(),
            nibbles@.len() == 2 * (j - 2 * n_scales),
            forall|k: int|
                0 <= k < nibbles@.len() ==> #[trigger] nibbles@[k] == nibble_at(
                    region@,
                    n_scales as nat,
                    k,
                ),
        decreases len - j,
    {
        let b: u8 = region[j];
        nibbles.push(b % 16);
        nibbles.push(b / 16);
        j += 1;
    }
    (scales, nibbles)
}

/// What a tensor is laid out from can be read back from it.
pub proof fn law_layout_reads_back(scales: Seq<u16>, nibbles: Seq<u8>, i: int)
    requires
        nibbles.len() % 2 == 0,
        forall|k: int| 0 <= k < nibbles.len() ==> #[trigger] nibbles[k] < 16,
    ensures
        q4_region(scales, nibbles).len() == 2 * scales.len() + nibbles.len() / 2,
        0 <= i < scales.len() ==> scale_at(q4_region(scales, nibbles), i) == scales[i],
        0 <= i < nibbles.len() ==> nibble_at(q4_region(scales, nibbles), scales.len(), i)
            == nibbles[i],
{
    lemma_scale_bytes(scales);
    let s = q4_region(scales, nibbles);
    if 0 <= i < scales.len() {
        assert(s.subrange(2 * i, 2 * i + 2) =~= scale_bytes(scales).subrange(2 * i, 2 * i + 2));
    }
    if 0 <= i < nibbles.len() {
        assert(nibbles[2 * (i / 2)] < 16 && nibbles[2 * (i / 2) + 1] < 16);
        assert(s[2 * scales.len() + i / 2] == nibble_bytes(nibbles)[i / 2]);
    }
}

/// A region laid out for a `[rows, cols]` tensor has exactly the size that
/// such a tensor occupies.
pub proof fn law_layout_size(scales: Seq<u16>, nibbles: Seq<u8>, rows: nat, cols: nat, group: nat)
    requires
        group > 0,
        scales.len() == rows * (cols / group),
        nibbles.len() == rows * cols,
    ensures
        q4_region(scales, nibbles).len() == q4_size(rows, cols, group),
{
    lemma_scale_bytes(scales);
}

/// 2^n.
pub open spec fn two_to(n: nat) -> nat
    decreases n,
{
    if n == 0 {
        1
    } else {
        2 * two_to((n - 1) as nat)
    }
}

/// The f16 bits that an f32 with bits `b` is stored as: infinities and
/// overflow become infinity, NaN stays NaN, the mantissa is rounded to ten
/// bits, halves up, and carries into the exponent.
pub open spec fn f16_of_f32(b: u32) -> u16 {
    let sign = b as nat / 0x8000_0000 * 0x8000;
    let exp = b as nat / 0x80_0000 % 256;
    let frac = b as nat % 0x80_0000;
    let magnitude = if exp == 255 {
        if frac != 0 {
            0x7E00
        } else {
            0x7C00
        }
    } else if exp >= 143 {
        0x7C00
    } else if exp < 102 {
        0
    } else if exp <= 112 {
        ((frac + 0x80_0000) / two_to((113 - exp) as nat) + 0x1000) / 0x2000
    } else {
        let e = (exp - 112) as nat;
        e * 1024 + (frac + 0x1000) / 0x2000
    };
    (sign + magnitude) as u16
}

/// How far a subnormal f16 mantissa must move left until its top bit is that
/// of a normal one.
pub open spec fn subnormal_shift(frac: nat) -> nat
    recommends
        0 < frac < 1024,
{
    if frac >= 512 {
        1
    } else if frac >= 256 {
        2
    } else if frac >= 128 {
        3
    } else if frac >= 64 {
        4
    } else if frac >= 32 {
        5
    } else if frac >= 16 {
        6
    } else if frac >= 8 {
        7
    } else if frac >= 4 {
        8
    } else if frac >= 2 {
        9
    } else {
        10
    }
}

/// The f32 bits of the number that an f16 with bits `h` stands for.
pub open spec fn f32_of_f16(h: u16) -> u32 {
    let sign = h as nat / 0x8000 * 0x8000_0000;
    let exp = h as nat / 1024 % 32;
    let frac = h as nat % 1024;
    let magnitude = if exp == 0 && frac == 0 {
        0
    } else if exp == 0 {
        let shift = subnormal_shift(frac);
        ((113 - shift) * 0x80_0000 + (frac * two_to(shift) - 1024) * 0x2000) as nat
    } else if exp == 31 {
        0x7F80_0000 + frac * 0x2000
    } else {
        (exp + 112) * 0x80_0000 + frac * 0x2000
    };
    (sign + magnitude) as u32
}

proof fn lemma_powers()
    ensures
        two_to(0) == 1,
        two_to(1) == 2,
        two_to(2) == 4,
        two_to(3) == 8,
        two_to(4) == 16,
        two_to(5) == 32,
        two_to(6) == 64,
        two_to(7) == 128,
        two_to(8) == 256,
        two_to(9) == 512,
        two_to(10) == 1024,
        two_to(11) == 2048,
{
    reveal_with_fuel(two_to, 12);
}

fn power(n: u32) -> (p: u32)
    requires
        n <= 11,
    ensures
        p == two_to(n as nat),
        1 <= p <= 2048,
{
    let mut p: u32 = 1;
    let mut i: u32 = 0;
    proof {
        lemma_powers();
    }
    while i < n
        invariant
            i <= n <= 11,
            p == two_to(i as nat),
            p <= 2048,
        decreases n - i,
    {
        proof {
            lemma_powers();
        }
        p = 2 * p;
        i += 1;
    }
    proof {
        lemma_powers();
    }
    p
}

/// The f16 bits for the f32 with bits `b`.
pub fn f32_to_f16_bits(b: u32) -> (h: u16)
    ensures
        h == f16_of_f32(b),
{
    let sign: u32 = b / 0x8000_0000 * 0x8000;
    let exp: u32 = b / 0x80_0000 % 256;
    let frac: u32 = b % 0x80_0000;
    if exp == 255 {
        return (sign + if frac != 0 { 0x7E00 } else { 0x7C00 }) as u16;
    }
    if exp >= 143 {
        return (sign + 0x7C00) as u16;
    }
    if exp <= 112 {
        if exp < 102 {
            return sign as u16;
        }
        let d: u32 = power(113 - exp);
        proof {
            lemma_powers();
            assert((frac + 0x80_0000) as int / d as int <= 0xFF_FFFF) by (nonlinear_arith)
                requires
                    0 <= frac < 0x80_0000,
                    1 <= d,
            ;
            assert(d >= 2);
            assert((frac + 0x80_0000) as int / d as int <= 0x7F_FFFF) by (nonlinear_arith)
                requires
                    0 <= frac < 0x80_0000,
                    2 <= d,
            ;
        }
        let m: u32 = (frac + 0x80_0000) / d;
        return (sign + (m + 0x1000) / 0x2000) as u16;
    }
    let e: u32 = exp - 112;
    let m: u32 = (frac + 0x1000) / 0x2000;
    (sign + e * 1024 + m) as u16
}

fn leading_shift(frac: u32) -> (shift: u32)
    requires
        0 < frac < 1024,
    ensures
        shift == subnormal_shift(frac as nat),
        1 <= shift <= 10,
{
    let mut shift: u32 = 1;
    let mut top: u32 = 512;
    while frac < top
        invariant
            0 < frac < 1024,
            1 <= shift <= 10,
            shift == 1 ==> top == 512,
            shift == 2 ==> top == 256 && frac < 512,
            shift == 3 ==> top == 128 && frac < 256,
            shift == 4 ==> top == 64 && frac < 128,
            shift == 5 ==> top == 32 && frac < 64,
            shift == 6 ==> top == 16 && frac < 32,
            shift == 7 ==> top == 8 && frac < 16,
            shift == 8 ==> top == 4 && frac < 8,
            shift == 9 ==> top == 2 && frac < 4,
            shift == 10 ==> top == 1 && frac < 2,
        decreases top,
    {
        shift += 1;
        top = top / 2;
    }
    shift
}

/// Shifted into place, a subnormal mantissa has exactly the bits of a normal
/// one; shifted back, it is what it was.
proof fn lemma_normalized(frac: nat)
    requires
        0 < frac < 1024,
    ensures
        1024 <= frac * two_to(subnormal_shift(frac)) < 2048,
        frac * two_to(subnormal_shift(frac)) * 0x2000 / two_to(subnormal_shift(frac)) == frac
            * 0x2000,
{
    lemma_powers();
    let n = subnormal_shift(frac);
    let p = two_to(n);
    if n == 1 {
        assert(frac * p == frac * 2);
    } else if n == 2 {
        assert(frac * p == frac * 4);
    } else if n == 3 {
        assert(frac * p == frac * 8);
    } else if n == 4 {
        assert(frac * p == frac * 16);
    } else if n == 5 {
        assert(frac * p == frac * 32);
    } else if n == 6 {
        assert(frac * p == frac * 64);
    } else if n == 7 {
        assert(frac * p == frac * 128);
    } else if n == 8 {
        assert(frac * p == frac * 256);
    } else if n == 9 {
        assert(frac * p == frac * 512);
    } else {
        assert(frac * p == frac * 1024);
    }
    assert(frac * p * 0x2000 / p == frac * 0x2000) by (nonlinear_arith)
        requires
            p > 0,
    ;
}

/// The f32 bits of the number that an f16 with bits `h` stands for.
pub fn f16_bits_to_f32(h: u16) -> (b: u32)
    ensures
        b == f32_of_f16(h),
{
    let sign: u32 = h as u32 / 0x8000 * 0x8000_0000;
    let exp: u32 = h as u32 / 1024 % 32;
    let frac: u32 = h as u32 % 1024;
    if exp == 0 && frac == 0 {
        return sign;
    }
    if exp == 0 {
        let shift: u32 = leading_shift(frac);
        proof {
            lemma_normalized(frac as nat);
        }
        let up: u32 = frac * power(shift);
        return sign + (113 - shift) * 0x80_0000 + (up - 1024) * 0x2000;
    }
    if exp == 31 {
        return sign + 0x7F80_0000 + frac * 0x2000;
    }
    sign + (exp + 112) * 0x80_0000 + frac * 0x2000
}

/// An f16 that is not a NaN survives the way to f32 and back.
pub proof fn law_f16_round_trip(h: u16)
    requires
        !(h as nat / 1024 % 32 == 31 && h as nat % 1024 != 0),
    ensures
        f16_of_f32(f32_of_f16(h)) == h,
{
    let sign = h as nat / 0x8000;
    let exp = h as nat / 1024 % 32;
    let frac = h as nat % 1024;
    let b = f32_of_f16(h);
    if exp == 0 && frac != 0 {
        lemma_normalized(frac);
        let shift = subnormal_shift(frac);
        let up = frac * two_to(shift);
        let exp32 = (113 - shift) as nat;
        let frac32 = ((up - 1024) * 0x2000) as nat;
        assert(b == sign * 0x8000_0000 + exp32 * 0x80_0000 + frac32);
        assert(b as nat / 0x80_0000 % 256 == exp32);
        assert(b as nat % 0x80_0000 == frac32);
        assert(b as nat / 0x8000_0000 == sign);
        assert(frac32 + 0x80_0000 == up * 0x2000);
        assert((frac32 + 0x80_0000) / two_to((113 - exp32) as nat) == frac * 0x2000);
    }
}

/// The magnitude of the f32 with bits `b`, in units of 2^-37, where its
/// exponent is that of a normal f16 or above.
pub open spec fn scaled(b: u32) -> nat {
    let exp = b as nat / 0x80_0000 % 256;
    let frac = b as nat % 0x80_0000;
    (0x80_0000 + frac) * two_to((exp - 113) as nat)
}

/// Storing a number in the range of normal f16 values keeps its sign and moves
/// it by at most one part in 2048.
pub proof fn law_f16_error_is_small(b: u32)
    requires
        0x3880_0000 <= b % 0x8000_0000 <= 0x477f_e000,
    ensures
        ({
            let back = f32_of_f16(f16_of_f32(b));
            &&& back / 0x8000_0000 == b / 0x8000_0000
            &&& scaled(back) <= scaled(b) + scaled(b) / 2048
            &&& scaled(b) <= scaled(back) + scaled(b) / 2048
        }),
{
    let exp = b as nat / 0x80_0000 % 256;
    let frac = b as nat % 0x80_0000;
    let sign = b as nat / 0x8000_0000;
    assert(113 <= exp <= 142);
    let e = (exp - 112) as nat;
    let m = (frac + 0x1000) / 0x2000;
    let h = f16_of_f32(b);
    assert(h == sign * 0x8000 + e * 1024 + m);
    let back = f32_of_f16(h);
    let p = two_to((exp - 113) as nat);
    assert(p >= 1) by {
        lemma_two_to_positive((exp - 113) as nat);
    }
    let x = 0x80_0000 + frac;
    if m < 1024 {
        assert(h as nat / 1024 % 32 == e);
        assert(h as nat % 1024 == m);
        assert(h as nat / 0x8000 == sign);
        assert(back == sign * 0x8000_0000 + exp * 0x80_0000 + m * 0x2000);
        assert(back as nat / 0x80_0000 % 256 == exp);
        assert(back as nat % 0x80_0000 == m * 0x2000);
        let y = 0x80_0000 + m * 0x2000;
        assert(y <= x + 0x1000 && x <= y + 0x1000);
        lemma_scaled_error(x as int, y as int, p as int);
    } else {
        assert(m == 1024);
        assert(exp < 142);
        assert(h == sign * 0x8000 + (e + 1) * 1024);
        assert(h as nat / 1024 % 32 == e + 1);
        assert(h as nat % 1024 == 0);
        assert(h as nat / 0x8000 == sign);
        assert(back == sign * 0x8000_0000 + (exp + 1) * 0x80_0000);
        assert(back as nat / 0x80_0000 % 256 == exp + 1);
        assert(back as nat % 0x80_0000 == 0);
        assert(two_to((exp + 1 - 113) as nat) == 2 * p);
        let y: int = 0x100_0000;
        assert(0x80_0000 * (2 * p) == y * p) by (nonlinear_arith)
            requires
                y == 0x100_0000,
        ;
        lemma_scaled_error(x as int, y as int, p as int);
    }
}

proof fn lemma_two_to_positive(n: nat)
    ensures
        two_to(n) >= 1,
    decreases n,
{
    if n > 0 {
        lemma_two_to_positive((n - 1) as nat);
    }
}

proof fn lemma_scaled_error(x: int, y: int, p: int)
    requires
        0x80_0000 <= x,
        0 <= y,
        p >= 1,
        y <= x + 0x1000,
        x <= y + 0x1000,
    ensures
        y * p <= x * p + x * p / 2048,
        x * p <= y * p + x * p / 2048,
{
    assert(0x1000 * p * 2048 <= x * p) by (nonlinear_arith)
        requires
            0x80_0000 <= x,
            p >= 1,
    ;
    assert(0x1000 * p <= x * p / 2048);
    assert(y * p <= x * p + 0x1000 * p) by (nonlinear_arith)
        requires
            y <= x + 0x1000,
            p >= 1,
    ;
    assert(x * p <= y * p + 0x1000 * p) by (nonlinear_arith)
        requires
            x <= y + 0x1000,
            p >= 1,
    ;
}

} // verus!
