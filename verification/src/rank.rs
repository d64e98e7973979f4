//! Order of floating-point numbers by their bits, and the choices that rest on
//! it: the greatest logit, and the experts of greatest weight.

use vstd::prelude::*;

verus! {

/// The f32 with bits `b` is not a number.
pub open spec fn is_nan(b: u32) -> bool {
    b % 0x8000_0000 > 0x7f80_0000
}

/// Where the f32 with bits `b` stands among numbers; both zeros stand at 0.
pub open spec fn rank_of(b: u32) -> int {
    if b < 0x8000_0000 {
        b as int
    } else {
        0x8000_0000 - b
    }
}

/// a > b, as f32 compares: never where either is not a number.
pub open spec fn above(a: u32, b: u32) -> bool {
    !is_nan(a) && !is_nan(b) && rank_of(a) > rank_of(b)
}

/// a >= b, as f32 compares.
pub open spec fn reaches(a: u32, b: u32) -> bool {
    !is_nan(a) && !is_nan(b) && !above(b, a)
}

/// The bits of the least finite f32.
pub const LEAST: u32 = 0xff7f_ffff;

/// a > b, as f32 compares.
pub fn is_above(a: u32, b: u32) -> (yes: bool)
    ensures
        yes == above(a, b),
{
    if a % 0x8000_0000 > 0x7f80_0000 || b % 0x8000_0000 > 0x7f80_0000 {
        return false;
    }
    let x: i64 = if a < 0x8000_0000 {
        a as i64
    } else {
        0x8000_0000 - a as i64
    };
    let y: i64 = if b < 0x8000_0000 {
        b as i64
    } else {
        0x8000_0000 - b as i64
    };
    x > y
}

/// a >= b, as f32 compares.
pub fn reaches_bound(a: u32, b: u32) -> (yes: bool)
    ensures
        yes == reaches(a, b),
{
    a % 0x8000_0000 <= 0x7f80_0000 && b % 0x8000_0000 <= 0x7f80_0000 && !is_above(b, a)
}

/// `best` is the position of the greatest of the first `n` logits, the first
/// of them where several are; 0 where none is above the least finite number.
pub open spec fn greatest(logits: Seq<u32>, n: int, best: int) -> bool {
    if exists|i: int| 0 <= i < n && above(#[trigger] logits[i], LEAST) {
        &&& 0 <= best < n
        &&& above(logits[best], LEAST)
        &&& forall|i: int| 0 <= i < n ==> !above(#[trigger] logits[i], logits[best])
        &&& forall|i: int|
            0 <= i < best ==> above(logits[best], #[trigger] logits[i]) || is_nan(logits[i])
    } else {
        best == 0
    }
}

/// Position of the greatest logit (greedy choice).
pub fn argmax(logits: &[u32]) -> (best: u32)
    requires
        logits@.len() <= u32::MAX,
    ensures
        greatest(logits@, logits@.len() as int, best as int),
{
    let mut best: u32 = 0;
    let mut value: u32 = LEAST;
    let mut i: usize = 0;
    while i < logits.len()
        invariant
            i <= logits@.len() <= u32::MAX,
            greatest(logits@, i as int, best as int),
            !is_nan(value),
            value == (if exists|k: int| 0 <= k < i && above(#[trigger] logits@[k], LEAST) {
                logits@[best as int]
            } else {
                LEAST
            }),
        decreases logits@.len() - i,
    {
        let v: u32 = logits[i];
        let ghost some = exists|k: int| 0 <= k < i && above(#[trigger] logits@[k], LEAST);
        proof {
            if some {
                let k = choose|k: int| 0 <= k < i && above(#[trigger] logits@[k], LEAST);
                assert(0 <= k < i + 1 && above(logits@[k], LEAST));
            }
        }
        if is_above(v, value) {
            assert(above(logits@[i as int], LEAST));
            value = v;
            best = i as u32;
        } else {
            assert(above(v, LEAST) ==> some);
        }
        i += 1;
    }
    best
}

/// Position `a` comes before position `b` in descending order of the numbers,
/// in order of positions where the numbers are equal.
pub open spec fn precedes(nums: Seq<u32>, a: int, b: int) -> bool {
    above(nums[a], nums[b]) || (!above(nums[b], nums[a]) && a < b)
}

/// `top` lists the first `k` positions in descending order of the numbers.
pub open spec fn top_of(nums: Seq<u32>, k: nat, top: Seq<usize>) -> bool {
    &&& top.len() == (if k < nums.len() { k } else { nums.len() })
    &&& forall|i: int|
        #![trigger top[i]]
        0 <= i < top.len() ==> top[i] < nums.len()
    &&& forall|i: int, j: int|
        #![trigger top[i], top[j]]
        0 <= i < j < top.len() ==> precedes(nums, top[i] as int, top[j] as int)
    &&& forall|i: int, u: int|
        #![trigger top[i], nums[u]]
        0 <= i < top.len() && 0 <= u < nums.len() && !top.contains(u as usize) ==> precedes(
            nums,
            top[i] as int,
            u,
        )
}

/// Whether any of the numbers is not a number.
pub fn any_nan(nums: &[u32]) -> (yes: bool)
    ensures
        yes == exists|i: int| 0 <= i < nums@.len() && is_nan(#[trigger] nums@[i]),
{
    let mut i: usize = 0;
    while i < nums.len()
        invariant
            i <= nums@.len(),
            forall|k: int| 0 <= k < i ==> !is_nan(#[trigger] nums@[k]),
        decreases nums@.len() - i,
    {
        if nums[i] % 0x8000_0000 > 0x7f80_0000 {
            assert(is_nan(nums@[i as int]));
            return true;
        }
        i += 1;
    }
    false
}

/// `s` lists the positions from `lo` to `hi` in descending order of the numbers.
spec fn orders(nums: Seq<u32>, lo: int, hi: int, s: Seq<usize>) -> bool {
    &&& s.len() == hi - lo
    &&& forall|i: int| #![trigger s[i]] 0 <= i < s.len() ==> lo <= s[i] < hi
    &&& forall|i: int, j: int|
        #![trigger s[i], s[j]]
        0 <= i < j < s.len() ==> precedes(nums, s[i] as int, s[j] as int)
    &&& forall|u: usize| lo <= u < hi ==> #[trigger] s.contains(u)
}

proof fn lemma_precedes(nums: Seq<u32>, a: int, b: int, c: int)
    requires
        forall|i: int| 0 <= i < nums.len() ==> !is_nan(#[trigger] nums[i]),
        0 <= a < nums.len(),
        0 <= b < nums.len(),
        0 <= c < nums.len(),
        precedes(nums, a, b),
        b == c || precedes(nums, b, c),
    ensures
        precedes(nums, a, c),
{
}

/// Merges the orders of two neighbouring ranges.
fn merge(
    nums: &[u32],
    left: Vec<usize>,
    right: Vec<usize>,
    lo: Ghost<int>,
    mid: Ghost<int>,
    hi: Ghost<int>,
) -> (s: Vec<usize>)
    requires
        forall|i: int| 0 <= i < nums@.len() ==> !is_nan(#[trigger] nums@[i]),
        0 <= lo@ <= mid@ <= hi@ <= nums@.len(),
        orders(nums@, lo@, mid@, left@),
        orders(nums@, mid@, hi@, right@),
    ensures
        orders(nums@, lo@, hi@, s@),
{
    let mut s: Vec<usize> = Vec::new();
    let mut i: usize = 0;
    let mut j: usize = 0;
    while i < left.len() || j < right.len()
        invariant
            forall|x: int| 0 <= x < nums@.len() ==> !is_nan(#[trigger] nums@[x]),
            0 <= lo@ <= mid@ <= hi@ <= nums@.len(),
            orders(nums@, lo@, mid@, left@),
            orders(nums@, mid@, hi@, right@),
            i <= left@.len(),
            j <= right@.len(),
            s@.len() == i + j,
            forall|x: int| #![trigger s@[x]] 0 <= x < s@.len() ==> lo@ <= s@[x] < hi@,
            forall|x: int, y: int|
                #![trigger s@[x], s@[y]]
                0 <= x < y < s@.len() ==> precedes(nums@, s@[x] as int, s@[y] as int),
            forall|x: int, y: int|
                #![trigger s@[x], left@[y]]
                0 <= x < s@.len() && i <= y < left@.len() ==> precedes(
                    nums@,
                    s@[x] as int,
                    left@[y] as int,
                ),
            forall|x: int, y: int|
                #![trigger s@[x], right@[y]]
                0 <= x < s@.len() && j <= y < right@.len() ==> precedes(
                    nums@,
                    s@[x] as int,
                    right@[y] as int,
                ),
            forall|y: int| 0 <= y < i ==> s@.contains(#[trigger] left@[y]),
            forall|y: int| 0 <= y < j ==> s@.contains(#[trigger] right@[y]),
        decreases left@.len() - i + right@.len() - j,
    {
        let ghost old_s = s@;
        let from_left: bool = j >= right.len() || (i < left.len() && !is_above(
            nums[right[j]],
            nums[left[i]],
        ));
        if from_left {
            let a: usize = left[i];
            proof {
                assert forall|y: int| j <= y < right@.len() implies precedes(
                    nums@,
                    a as int,
                    #[trigger] right@[y] as int,
                ) by {
                    assert(right@[j as int] >= mid@ && a < mid@);
                    lemma_precedes(nums@, a as int, right@[j as int] as int, right@[y] as int);
                }
            }
            s.push(a);
            i += 1;
        } else {
            let a: usize = right[j];
            proof {
                assert forall|y: int| i <= y < left@.len() implies precedes(
                    nums@,
                    a as int,
                    #[trigger] left@[y] as int,
                ) by {
                    lemma_precedes(nums@, a as int, left@[i as int] as int, left@[y] as int);
                }
            }
            s.push(a);
            j += 1;
        }
        proof {
            assert(s@[old_s.len() as int] == s@.last());
            assert forall|u: usize| old_s.contains(u) implies #[trigger] s@.contains(u) by {
                let x = choose|x: int| 0 <= x < old_s.len() && old_s[x] == u;
                assert(s@[x] == u);
            }
            assert(s@.contains(s@.last()));
            assert forall|x: int| 0 <= x < old_s.len() implies #[trigger] s@[x] == old_s[x] by {}
        }
    }
    proof {
        assert forall|u: usize| lo@ <= u < hi@ implies #[trigger] s@.contains(u) by {
            if u < mid@ {
                assert(left@.contains(u));
                let y = choose|y: int| 0 <= y < left@.len() && left@[y] == u;
                assert(s@.contains(left@[y]));
            } else {
                assert(right@.contains(u));
                let y = choose|y: int| 0 <= y < right@.len() && right@[y] == u;
                assert(s@.contains(right@[y]));
            }
        }
    }
    s
}

/// The positions from `lo` to `hi` in descending order of the numbers.
fn order(nums: &[u32], lo: usize, hi: usize) -> (s: Vec<usize>)
    requires
        forall|i: int| 0 <= i < nums@.len() ==> !is_nan(#[trigger] nums@[i]),
        lo <= hi <= nums@.len(),
    ensures
        orders(nums@, lo as int, hi as int, s@),
    decreases hi - lo,
{
    if hi - lo <= 1 {
        let mut s: Vec<usize> = Vec::new();
        if lo < hi {
            s.push(lo);
            assert(s@[0] == lo);
        }
        return s;
    }
    let mid: usize = lo + (hi - lo) / 2;
    let left: Vec<usize> = order(nums, lo, mid);
    let right: Vec<usize> = order(nums, mid, hi);
    merge(nums, left, right, Ghost(lo as int), Ghost(mid as int), Ghost(hi as int))
}

/// The positions of the `k` greatest numbers, in descending order; equal ones
/// keep their order.
pub fn top_k(nums: &[u32], k: usize) -> (top: Vec<usize>)
    requires
        forall|i: int| 0 <= i < nums@.len() ==> !is_nan(#[trigger] nums@[i]),
    ensures
        top_of(nums@, k as nat, top@),
{
    let mut top: Vec<usize> = order(nums, 0, nums.len());
    let ghost all = top@;
    top.truncate(k);
    proof {
        assert forall|i: int, u: int|
            #![trigger top@[i], nums@[u]]
            0 <= i < top@.len() && 0 <= u < nums@.len() && !top@.contains(
                u as usize,
            ) implies precedes(nums@, top@[i] as int, u) by {
            assert(all.contains(u as usize));
            let x = choose|x: int| 0 <= x < all.len() && all[x] == u as usize;
            if x < top@.len() {
                assert(top@[x] == u as usize);
            }
            assert(top@[i] == all[i]);
            assert(precedes(nums@, all[i] as int, all[x] as int));
        }
    }
    top
}

} // verus!
