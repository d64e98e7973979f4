//! What kernel launches do to device memory. A buffer is known by its address
//! and holds numbers by their position; a kernel writes numbers that are
//! functions of those it reads. What these functions compute is left open: only
//! which numbers go into them, and where their results go, is said here.

use crate::launch::{row_blocks, Kernel, LaunchView, Param};
use vstd::prelude::*;

verus! {

/// The numbers in device memory, by buffer and position.
pub type Numbers<T> = spec_fn(u64, int) -> T;

/// How the weights of a matrix are held.
pub enum Encoding {
    Bf16,
    /// 4-bit values, so many to a scale.
    Q4 { group: int },
}

/// What the kernels compute.
#[verifier::reject_recursive_types(T)]
pub struct Arith<T> {
    /// One row of a matrix of so many rows and columns, times a vector.
    pub dot: spec_fn(Encoding, int, int, int, Seq<T>, int) -> T,
    /// One number of a vector, normed with weights and an epsilon.
    pub norm: spec_fn(Seq<T>, u64, u32, int) -> T,
    /// One number of a head, rotated by its position with a base.
    pub rope: spec_fn(Seq<T>, int, u32, int) -> T,
    /// One number of a slice, rotated by its position with a table and a scale.
    pub rotate: spec_fn(Seq<T>, int, u64, u32, int) -> T,
    /// A number as a cache keeps it, in half precision or not.
    pub keep: spec_fn(bool, T) -> T,
    /// One number of what a head attends to: a query, and keys and values that
    /// are read in half precision or not.
    pub attend: spec_fn(bool, Seq<T>, Seq<Seq<T>>, Seq<Seq<T>>, u32, int) -> T,
    /// What a kernel leaves in its scratch buffer.
    pub scrap: spec_fn(int) -> T,
    pub plus: spec_fn(T, T) -> T,
    /// A number plus another times a factor.
    pub plus_times: spec_fn(T, u32, T) -> T,
    /// The activation of a gate, times a number.
    pub gated: spec_fn(T, T) -> T,
    /// A number plus the weighted sum of others.
    pub weigh: spec_fn(T, Seq<T>, Seq<T>) -> T,
    /// One number of a row of a table.
    pub row: spec_fn(u64, int, int) -> T,
    /// An address in a table of addresses.
    pub address: spec_fn(u64, int) -> int,
}

/// Numbers from position `at` of a buffer on.
pub open spec fn numbers<T>(m: Numbers<T>, x: u64, at: int, n: int) -> Seq<T> {
    Seq::new(n as nat, |i: int| m(x, at + i))
}

/// Which of the vectors that start at `at` and every `stride` behind it a
/// position is in.
pub open spec fn turn(k: int, at: int, stride: int) -> int {
    (k - at) / stride
}

/// Where in it the position is.
pub open spec fn spot(k: int, at: int, stride: int) -> int {
    (k - at) % stride
}

/// The memory once `n` vectors of `len` numbers were written to a buffer: the
/// first at `at`, each `stride` behind the one before.
pub open spec fn put<T>(
    m: Numbers<T>,
    y: u64,
    at: int,
    stride: int,
    n: int,
    len: int,
    f: spec_fn(int, int) -> T,
) -> Numbers<T> {
    |b: u64, k: int|
        if b == y && k >= at && stride > 0 && turn(k, at, stride) < n && spot(k, at, stride) < len {
            f(turn(k, at, stride), spot(k, at, stride))
        } else {
            m(b, k)
        }
}

/// The memory once a kernel has used a buffer as its scratch.
pub open spec fn scribbled<T>(a: Arith<T>, m: Numbers<T>, y: u64) -> Numbers<T> {
    |b: u64, k: int|
        if b == y {
            (a.scrap)(k)
        } else {
            m(b, k)
        }
}

pub open spec fn ptr(l: LaunchView, i: int) -> u64 {
    match l.params[i] {
        Param::Ptr(p) => p,
        _ => 0,
    }
}

pub open spec fn num(l: LaunchView, i: int) -> int {
    match l.params[i] {
        Param::I32(n) => n as int,
        Param::U64(n) => n as int,
        _ => 0,
    }
}

pub open spec fn float(l: LaunchView, i: int) -> u32 {
    match l.params[i] {
        Param::F32(f) => f,
        _ => 0,
    }
}

/// Rows that a matrix-vector product computes: one for each warp of 32 threads
/// that runs, as far as there are rows.
pub open spec fn rows_run(l: LaunchView, rows: int) -> int {
    let warps = l.grid.0 * (l.block.0 / 32);
    if warps < rows {
        warps
    } else {
        rows
    }
}

/// Blocks of four warps, as many as four rows to each ask for, compute all
/// rows.
pub proof fn lemma_rows_run(l: LaunchView, rows: int)
    requires
        0 <= rows <= i32::MAX,
        l.block.0 == 128,
        l.grid.0 == row_blocks(rows),
    ensures
        rows_run(l, rows) == rows,
{
    assert(l.grid.0 * (l.block.0 / 32) == l.grid.0 * 4);
    assert(l.grid.0 * 4 >= rows);
}

/// Some thread runs: those that do share the numbers among them.
pub open spec fn runs(l: LaunchView) -> bool {
    l.grid.0 > 0 && l.block.0 > 0
}

/// The head of the keys and values that head `h` of the queries goes with.
pub open spec fn kv_head(h: int, heads: int, kv_heads: int) -> int {
    h / (heads / kv_heads)
}

/// What a launch leaves in memory.
pub open spec fn ran<T>(a: Arith<T>, m: Numbers<T>, l: LaunchView) -> Numbers<T> {
    match l.kernel {
        Kernel::RmsNorm => {
            let n = num(l, 3);
            put(
                m,
                ptr(l, 2),
                0,
                n,
                l.grid.0 as int,
                n,
                |r: int, i: int| (a.norm)(numbers(m, ptr(l, 0), r * n, n), ptr(l, 1), float(l, 4), i),
            )
        },
        Kernel::Bf16Gemv => {
            let (rows, cols) = (num(l, 3), num(l, 4));
            put(
                m,
                ptr(l, 2),
                0,
                1,
                rows_run(l, rows),
                1,
                |r: int, i: int|
                    (a.dot)(
                        Encoding::Bf16,
                        ptr(l, 0) as int,
                        rows,
                        cols,
                        numbers(m, ptr(l, 1), 0, cols),
                        r,
                    ),
            )
        },
        Kernel::Q4g64Gemv => {
            let (rows, cols) = (num(l, 3), num(l, 4));
            put(
                m,
                ptr(l, 2),
                0,
                1,
                rows_run(l, rows),
                1,
                |r: int, i: int|
                    (a.dot)(
                        Encoding::Q4 { group: num(l, 5) },
                        ptr(l, 0) as int,
                        rows,
                        cols,
                        numbers(m, ptr(l, 1), 0, cols),
                        r,
                    ),
            )
        },
        Kernel::Q4g64GemvBatch => {
            let (rows, cols, stride) = (num(l, 5), num(l, 6), num(l, 3));
            put(
                m,
                ptr(l, 4),
                0,
                rows,
                l.grid.1 as int,
                rows_run(l, rows),
                |e: int, r: int|
                    (a.dot)(
                        Encoding::Q4 { group: num(l, 7) },
                        (a.address)(ptr(l, 0), e) + num(l, 1),
                        rows,
                        cols,
                        numbers(m, ptr(l, 2), e * stride, cols),
                        r,
                    ),
            )
        },
        Kernel::Bf16GemvBatch => {
            let (rows, cols) = (num(l, 6), num(l, 7));
            put(
                m,
                ptr(l, 4),
                0,
                num(l, 5),
                if l.grid.1 < num(l, 8) {
                    l.grid.1 as int
                } else {
                    num(l, 8)
                },
                rows_run(l, rows),
                |b: int, r: int|
                    (a.dot)(
                        Encoding::Bf16,
                        ptr(l, 0) + 2 * (b * num(l, 1)),
                        rows,
                        cols,
                        numbers(m, ptr(l, 2), b * num(l, 3), cols),
                        r,
                    ),
            )
        },
        Kernel::MoeReduce => {
            let (e, n) = (num(l, 3), num(l, 4));
            put(
                m,
                ptr(l, 2),
                0,
                1,
                if runs(l) {
                    n
                } else {
                    0
                },
                1,
                |k: int, i: int|
                    (a.weigh)(
                        m(ptr(l, 2), k),
                        numbers(m, ptr(l, 1), 0, e),
                        Seq::new(e as nat, |x: int| m(ptr(l, 0), x * n + k)),
                    ),
            )
        },
        Kernel::ScaleAdd => put(
            m,
            ptr(l, 0),
            0,
            1,
            if runs(l) {
                num(l, 3)
            } else {
                0
            },
            1,
            |k: int, i: int| (a.plus_times)(m(ptr(l, 0), k), float(l, 2), m(ptr(l, 1), k)),
        ),
        Kernel::KvAppend => {
            let (heads, dim, pos, max, half) = (
                num(l, 4),
                num(l, 5),
                num(l, 6),
                num(l, 7),
                num(l, 8) != 0,
            );
            let n = if runs(l) {
                heads
            } else {
                0
            };
            put(
                put(
                    m,
                    ptr(l, 2),
                    pos * dim,
                    max * dim,
                    n,
                    dim,
                    |h: int, i: int| (a.keep)(half, m(ptr(l, 0), h * dim + i)),
                ),
                ptr(l, 3),
                pos * dim,
                max * dim,
                n,
                dim,
                |h: int, i: int| (a.keep)(half, m(ptr(l, 1), h * dim + i)),
            )
        },
        Kernel::SiluMul => put(
            m,
            ptr(l, 2),
            0,
            1,
            if runs(l) {
                num(l, 3)
            } else {
                0
            },
            1,
            |k: int, i: int| (a.gated)(m(ptr(l, 0), k), m(ptr(l, 1), k)),
        ),
        Kernel::Add => put(
            m,
            ptr(l, 0),
            0,
            1,
            if runs(l) {
                num(l, 2)
            } else {
                0
            },
            1,
            |k: int, i: int| (a.plus)(m(ptr(l, 0), k), m(ptr(l, 1), k)),
        ),
        Kernel::Rope => {
            let dim = num(l, 2);
            put(
                m,
                ptr(l, 0),
                0,
                dim,
                if runs(l) {
                    num(l, 1)
                } else {
                    0
                },
                dim,
                |h: int, i: int|
                    (a.rope)(numbers(m, ptr(l, 0), h * dim, dim), num(l, 3), float(l, 4), i),
            )
        },
        Kernel::AttnDecode => {
            let (heads, kv_heads, dim, len, max) = (
                num(l, 5),
                num(l, 6),
                num(l, 7),
                num(l, 8),
                num(l, 9),
            );
            put(
                scribbled(a, m, ptr(l, 4)),
                ptr(l, 3),
                0,
                dim,
                l.grid.0 as int,
                dim,
                |h: int, i: int|
                    {
                        let g = kv_head(h, heads, kv_heads);
                        (a.attend)(
                            num(l, 11) != 0,
                            numbers(m, ptr(l, 0), h * dim, dim),
                            Seq::new(
                                len as nat,
                                |j: int| numbers(m, ptr(l, 1), j * dim + g * (max * dim), dim),
                            ),
                            Seq::new(
                                len as nat,
                                |j: int| numbers(m, ptr(l, 2), j * dim + g * (max * dim), dim),
                            ),
                            float(l, 10),
                            i,
                        )
                    },
            )
        },
        Kernel::Bf16Row => put(
            m,
            ptr(l, 3),
            0,
            1,
            if runs(l) {
                num(l, 2)
            } else {
                0
            },
            1,
            |k: int, i: int| (a.row)(ptr(l, 0), num(l, 1), k),
        ),
        Kernel::MlaRope => {
            let (stride, off, half) = (num(l, 2), num(l, 3), num(l, 4));
            put(
                m,
                ptr(l, 0),
                off,
                stride,
                if runs(l) {
                    num(l, 1)
                } else {
                    0
                },
                2 * half,
                |v: int, i: int|
                    (a.rotate)(
                        numbers(m, ptr(l, 0), off + v * stride, 2 * half),
                        num(l, 5),
                        ptr(l, 6),
                        float(l, 7),
                        i,
                    ),
            )
        },
        Kernel::MlaAttnDecode => {
            let (row, dim, len) = (num(l, 5), num(l, 6), num(l, 7));
            put(
                scribbled(a, m, ptr(l, 3)),
                ptr(l, 2),
                0,
                dim,
                if l.grid.0 < num(l, 4) {
                    l.grid.0 as int
                } else {
                    num(l, 4)
                },
                dim,
                |h: int, i: int|
                    (a.attend)(
                        false,
                        numbers(m, ptr(l, 0), h * row, row),
                        Seq::new(len as nat, |j: int| numbers(m, ptr(l, 1), j * row, row)),
                        Seq::new(len as nat, |j: int| numbers(m, ptr(l, 1), j * row, dim)),
                        float(l, 9),
                        i,
                    ),
            )
        },
        Kernel::StridedCopy => put(
            m,
            ptr(l, 3),
            num(l, 5),
            num(l, 4),
            if runs(l) {
                num(l, 6)
            } else {
                0
            },
            num(l, 7),
            |v: int, i: int| m(ptr(l, 0), v * num(l, 1) + num(l, 2) + i),
        ),
    }
}

/// What the first `n` launches leave in memory.
pub open spec fn ran_all<T>(a: Arith<T>, m: Numbers<T>, plan: Seq<LaunchView>, n: nat) -> Numbers<T>
    decreases n,
{
    if n == 0 {
        m
    } else {
        ran(a, ran_all(a, m, plan, (n - 1) as nat), plan[n - 1])
    }
}

/// A position in a vector is that of no other.
pub proof fn lemma_place(v: int, i: int, stride: int)
    requires
        0 <= v,
        0 <= i < stride,
    ensures
        0 <= v * stride,
        (v * stride + i) / stride == v,
        (v * stride + i) % stride == i,
{
    assert(0 <= v * stride) by (nonlinear_arith)
        requires
            0 <= v,
            0 < stride,
    ;
    vstd::arithmetic::div_mod::lemma_fundamental_div_mod_converse(v * stride + i, stride, v, i);
}

} // verus!
