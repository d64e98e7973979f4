//! What each kernel makes of vectors: the products, norms, rotations and sums
//! that a model is made of.

use crate::device::{lemma_place, numbers, ran, Arith, Encoding, Numbers};
use crate::launch::Kernels;
use crate::model::Mat;
use vstd::prelude::*;

verus! {

/// A matrix times a vector.
pub open spec fn times<T>(a: Arith<T>, w: Mat, x: Seq<T>) -> Seq<T> {
    Seq::new(
        w.rows as nat,
        |r: int|
            (a.dot)(
                if w.q4 {
                    Encoding::Q4 { group: 64 }
                } else {
                    Encoding::Bf16
                },
                w.dev as int,
                w.rows as int,
                w.cols as int,
                x,
                r,
            ),
    )
}

/// A vector, normed.
pub open spec fn normed<T>(a: Arith<T>, x: Seq<T>, w: u64, eps: u32) -> Seq<T> {
    Seq::new(x.len(), |i: int| (a.norm)(x, w, eps, i))
}

/// Head `h` of a vector of heads.
pub open spec fn head<T>(x: Seq<T>, h: int, dim: int) -> Seq<T> {
    Seq::new(dim as nat, |i: int| x[h * dim + i])
}

/// A vector of heads, each normed.
pub open spec fn normed_heads<T>(a: Arith<T>, x: Seq<T>, w: u64, eps: u32, dim: int) -> Seq<T> {
    Seq::new(x.len(), |k: int| (a.norm)(head(x, k / dim, dim), w, eps, k % dim))
}

/// A vector of heads, each rotated by its position.
pub open spec fn roped<T>(a: Arith<T>, x: Seq<T>, pos: int, base: u32, dim: int) -> Seq<T> {
    Seq::new(x.len(), |k: int| (a.rope)(head(x, k / dim, dim), pos, base, k % dim))
}

/// The sum of two vectors.
pub open spec fn sum<T>(a: Arith<T>, x: Seq<T>, y: Seq<T>) -> Seq<T> {
    Seq::new(x.len(), |i: int| (a.plus)(x[i], y[i]))
}

/// A gate applied to a vector.
pub open spec fn gate<T>(a: Arith<T>, x: Seq<T>, y: Seq<T>) -> Seq<T> {
    Seq::new(x.len(), |i: int| (a.gated)(x[i], y[i]))
}

/// Memory changed in no buffer but `y`.
pub open spec fn only<T>(m: Numbers<T>, m2: Numbers<T>, y: u64) -> bool {
    &&& forall|b: u64, k: int| b != y ==> #[trigger] m2(b, k) == m(b, k)
    &&& forall|b: u64, at: int, n: int|
        b != y ==> #[trigger] numbers(m2, b, at, n) == numbers(m, b, at, n)
}

pub proof fn lemma_only<T>(m: Numbers<T>, m2: Numbers<T>, y: u64)
    requires
        forall|b: u64, k: int| b != y ==> #[trigger] m2(b, k) == m(b, k),
    ensures
        only(m, m2, y),
{
    assert forall|b: u64, s: int, c: int| b != y implies #[trigger] numbers(m2, b, s, c) == numbers(
        m,
        b,
        s,
        c,
    ) by {
        assert(numbers(m2, b, s, c) =~= numbers(m, b, s, c));
    }
}

/// Memory changed in no buffer but `y` and `z`.
pub open spec fn only_two<T>(m: Numbers<T>, m2: Numbers<T>, y: u64, z: u64) -> bool {
    &&& forall|b: u64, k: int| b != y && b != z ==> #[trigger] m2(b, k) == m(b, k)
    &&& forall|b: u64, at: int, n: int|
        b != y && b != z ==> #[trigger] numbers(m2, b, at, n) == numbers(m, b, at, n)
}

pub proof fn lemma_only_two<T>(m: Numbers<T>, m2: Numbers<T>, y: u64, z: u64)
    requires
        forall|b: u64, k: int| b != y && b != z ==> #[trigger] m2(b, k) == m(b, k),
    ensures
        only_two(m, m2, y, z),
{
    assert forall|b: u64, s: int, c: int| b != y && b != z implies #[trigger] numbers(m2, b, s, c)
        == numbers(m, b, s, c) by {
        assert(numbers(m2, b, s, c) =~= numbers(m, b, s, c));
    }
}

/// A product leaves the matrix times the vector.
pub proof fn lemma_product<T>(a: Arith<T>, m: Numbers<T>, w: Mat, x: u64, y: u64)
    requires
        0 <= w.rows,
    ensures
        ({
            let m2 = ran(a, m, w.gemv_launch(x, y));
            &&& numbers(m2, y, 0, w.rows as int) == times(a, w, numbers(m, x, 0, w.cols as int))
            &&& only(m, m2, y)
        }),
{
    let l = w.gemv_launch(x, y);
    let m2 = ran(a, m, l);
    let all = times(a, w, numbers(m, x, 0, w.cols as int));
    crate::device::lemma_rows_run(l, w.rows as int);
    assert forall|k: int| 0 <= k < w.rows implies #[trigger] m2(y, k) == all[k] by {
        lemma_place(k, 0, 1);
    }
    assert(numbers(m2, y, 0, w.rows as int) =~= all);
    lemma_only(m, m2, y);
}

/// A norm over one row.
pub proof fn lemma_norm<T>(a: Arith<T>, m: Numbers<T>, x: u64, w: u64, y: u64, n: i32, eps: u32)
    requires
        0 <= n,
    ensures
        ({
            let m2 = ran(a, m, Kernels::rmsnorm_launch(x, w, y, n, eps, 1));
            &&& numbers(m2, y, 0, n as int) == normed(a, numbers(m, x, 0, n as int), w, eps)
            &&& only(m, m2, y)
        }),
{
    let m2 = ran(a, m, Kernels::rmsnorm_launch(x, w, y, n, eps, 1));
    let all = normed(a, numbers(m, x, 0, n as int), w, eps);
    assert forall|k: int| 0 <= k < n implies #[trigger] m2(y, k) == all[k] by {
        lemma_place(0, k, n as int);
        assert(0 * n == 0);
    }
    assert(numbers(m2, y, 0, n as int) =~= all);
    lemma_only(m, m2, y);
}

/// A position in a vector of heads.
pub proof fn lemma_head(k: int, heads: int, dim: int)
    requires
        0 <= k < heads * dim,
        0 <= dim,
    ensures
        dim > 0,
        0 <= k / dim < heads,
        0 <= k % dim < dim,
        k == (k / dim) * dim + k % dim,
        0 <= (k / dim) * dim,
        (k / dim) * dim + dim <= heads * dim,
{
    assert(dim > 0) by (nonlinear_arith)
        requires
            0 <= k < heads * dim,
            0 <= dim,
    ;
    vstd::arithmetic::div_mod::lemma_fundamental_div_mod(k, dim);
    let h = k / dim;
    assert(dim * h == h * dim) by (nonlinear_arith);
    assert(0 <= h) by (nonlinear_arith)
        requires
            k == h * dim + k % dim,
            0 <= k,
            k % dim < dim,
            dim > 0,
    ;
    assert(h < heads) by (nonlinear_arith)
        requires
            h * dim + k % dim < heads * dim,
            0 <= k % dim,
            dim > 0,
    ;
    assert(0 <= h * dim && h * dim + dim <= heads * dim) by (nonlinear_arith)
        requires
            0 <= h < heads,
            dim > 0,
    ;
}

/// A norm over each head.
pub proof fn lemma_norm_heads<T>(
    a: Arith<T>,
    m: Numbers<T>,
    x: u64,
    w: u64,
    y: u64,
    dim: i32,
    eps: u32,
    heads: i32,
)
    requires
        0 <= dim,
        0 <= heads,
    ensures
        ({
            let m2 = ran(a, m, Kernels::rmsnorm_launch(x, w, y, dim, eps, heads));
            let n = heads * dim;
            &&& numbers(m2, y, 0, n) == normed_heads(a, numbers(m, x, 0, n), w, eps, dim as int)
            &&& only(m, m2, y)
        }),
{
    let m2 = ran(a, m, Kernels::rmsnorm_launch(x, w, y, dim, eps, heads));
    let n = heads * dim;
    let v = numbers(m, x, 0, n);
    let all = normed_heads(a, v, w, eps, dim as int);
    assert forall|k: int| 0 <= k < n implies #[trigger] m2(y, k) == all[k] by {
        let d = dim as int;
        lemma_head(k, heads as int, d);
        assert(numbers(m, x, (k / d) * d, d) =~= head(v, k / d, d));
    }
    assert(numbers(m2, y, 0, n) =~= all);
    lemma_only(m, m2, y);
}

/// A rotation of each head.
pub proof fn lemma_rope<T>(
    a: Arith<T>,
    m: Numbers<T>,
    x: u64,
    heads: i32,
    dim: i32,
    pos: i32,
    base: u32,
)
    requires
        0 <= dim,
        0 <= heads,
    ensures
        ({
            let m2 = ran(a, m, Kernels::rope_launch(x, heads, dim, pos, base));
            let n = heads * dim;
            &&& numbers(m2, x, 0, n) == roped(
                a,
                numbers(m, x, 0, n),
                pos as int,
                base,
                dim as int,
            )
            &&& only(m, m2, x)
        }),
{
    let m2 = ran(a, m, Kernels::rope_launch(x, heads, dim, pos, base));
    let n = heads * dim;
    let v = numbers(m, x, 0, n);
    let all = roped(a, v, pos as int, base, dim as int);
    assert forall|k: int| 0 <= k < n implies #[trigger] m2(x, k) == all[k] by {
        let d = dim as int;
        lemma_head(k, heads as int, d);
        assert(numbers(m, x, (k / d) * d, d) =~= head(v, k / d, d));
    }
    assert(numbers(m2, x, 0, n) =~= all);
    lemma_only(m, m2, x);
}

/// A sum in place.
pub proof fn lemma_sum<T>(a: Arith<T>, m: Numbers<T>, x: u64, y: u64, n: i32)
    requires
        0 <= n,
    ensures
        ({
            let m2 = ran(a, m, Kernels::add_to_launch(x, y, n));
            &&& numbers(m2, x, 0, n as int) == sum(
                a,
                numbers(m, x, 0, n as int),
                numbers(m, y, 0, n as int),
            )
            &&& only(m, m2, x)
        }),
{
    let m2 = ran(a, m, Kernels::add_to_launch(x, y, n));
    let all = sum(a, numbers(m, x, 0, n as int), numbers(m, y, 0, n as int));
    assert forall|k: int| 0 <= k < n implies #[trigger] m2(x, k) == all[k] by {
        lemma_place(k, 0, 1);
    }
    assert(numbers(m2, x, 0, n as int) =~= all);
    lemma_only(m, m2, x);
}

/// A gate.
pub proof fn lemma_gate<T>(a: Arith<T>, m: Numbers<T>, x: u64, y: u64, z: u64, n: i32)
    requires
        0 <= n,
    ensures
        ({
            let m2 = ran(a, m, Kernels::silu_mul_launch(x, y, z, n));
            &&& numbers(m2, z, 0, n as int) == gate(
                a,
                numbers(m, x, 0, n as int),
                numbers(m, y, 0, n as int),
            )
            &&& only(m, m2, z)
        }),
{
    let m2 = ran(a, m, Kernels::silu_mul_launch(x, y, z, n));
    let all = gate(a, numbers(m, x, 0, n as int), numbers(m, y, 0, n as int));
    assert forall|k: int| 0 <= k < n implies #[trigger] m2(z, k) == all[k] by {
        lemma_place(k, 0, 1);
    }
    assert(numbers(m2, z, 0, n as int) =~= all);
    lemma_only(m, m2, z);
}

} // verus!
