//! Whether the caches of a decoder share memory: a context could then not be
//! parked and restored without harm to another.

use crate::decode::{slot_stride, Decoder};
use crate::kimi::{lemma_row_stride, row_stride, KimiDecoder, KimiDims};
use vstd::prelude::*;

verus! {

/// Where the K or V cache number `c` starts: K and V of each layer in turn.
pub open spec fn cache_base(d: Decoder, c: int) -> int {
    if c % 2 == 0 {
        d.kcache@[c / 2] as int
    } else {
        d.vcache@[c / 2] as int
    }
}

/// The caches of a decoder share no memory.
pub open spec fn caches_apart(d: Decoder) -> bool {
    let region = d.batch_cap * slot_stride(d.dims, d.kv_f16);
    forall|x: int, y: int|
        #![trigger cache_base(d, x), cache_base(d, y)]
        0 <= x < y < 2 * d.kcache@.len() ==> cache_base(d, x) + region <= cache_base(d, y)
            || cache_base(d, y) + region <= cache_base(d, x)
}

/// The caches of the layers share no memory.
pub open spec fn latents_apart(d: KimiDecoder) -> bool {
    let region = d.batch_cap * row_stride(d.dims);
    forall|x: int, y: int|
        #![trigger d.cache@[x], d.cache@[y]]
        0 <= x < y < d.cache@.len() ==> d.cache@[x] + region <= d.cache@[y] || d.cache@[y] + region
            <= d.cache@[x]
}

/// No two of the regions of `len` bytes that start there share an address.
pub open spec fn spread(bases: Seq<u64>, len: int) -> bool {
    forall|x: int, y: int|
        #![trigger bases[x], bases[y]]
        0 <= x < y < bases.len() ==> bases[x] + len <= bases[y] || bases[y] + len <= bases[x]
}

fn is_spread(bases: &Vec<u64>, len: u64) -> (yes: bool)
    requires
        forall|x: int| 0 <= x < bases@.len() ==> #[trigger] bases@[x] + len <= u64::MAX,
    ensures
        yes == spread(bases@, len as int),
{
    let mut x: usize = 0;
    while x < bases.len()
        invariant
            x <= bases@.len(),
            forall|i: int| 0 <= i < bases@.len() ==> #[trigger] bases@[i] + len <= u64::MAX,
            forall|i: int, j: int|
                #![trigger bases@[i], bases@[j]]
                0 <= i < x && i < j < bases@.len() ==> bases@[i] + len <= bases@[j] || bases@[j]
                    + len <= bases@[i],
        decreases bases@.len() - x,
    {
        let mut y: usize = x + 1;
        while y < bases.len()
            invariant
                x < y <= bases@.len(),
                forall|i: int| 0 <= i < bases@.len() ==> #[trigger] bases@[i] + len <= u64::MAX,
                forall|j: int|
                    #![trigger bases@[j]]
                    x < j < y ==> bases@[x as int] + len <= bases@[j] || bases@[j] + len
                        <= bases@[x as int],
            decreases bases@.len() - y,
        {
            assert(bases@[x as int] + len <= u64::MAX);
            assert(bases@[y as int] + len <= u64::MAX);
            if bases[x] + len > bases[y] && bases[y] + len > bases[x] {
                return false;
            }
            y += 1;
        }
        x += 1;
    }
    true
}

impl Decoder {
    /// Where the caches start, in order.
    fn bases(&self) -> (bases: Vec<u64>)
        requires
            self.wf(),
        ensures
            bases@.len() == 2 * self.kcache@.len(),
            forall|c: int|
                #![trigger bases@[c]]
                0 <= c < bases@.len() ==> bases@[c] == cache_base(*self, c),
    {
        let mut bases: Vec<u64> = Vec::new();
        let mut l: usize = 0;
        while l < self.kcache.len()
            invariant
                self.wf(),
                l <= self.kcache@.len(),
                bases@.len() == 2 * l,
                forall|c: int|
                    #![trigger bases@[c]]
                    0 <= c < bases@.len() ==> bases@[c] == cache_base(*self, c),
            decreases self.kcache@.len() - l,
        {
            bases.push(self.kcache[l]);
            bases.push(self.vcache[l]);
            l += 1;
        }
        bases
    }

    /// Whether the caches share no memory.
    pub fn caches_are_apart(&self) -> (yes: bool)
        requires
            self.wf(),
        ensures
            yes == caches_apart(*self),
    {
        if self.kcache.len() == 0 {
            return true;
        }
        let bases: Vec<u64> = self.bases();
        let stride: u64 = self.slot_bytes();
        proof {
            assert(self.kcache@[0] + self.batch_cap * stride <= u64::MAX);
            assert(0 <= self.batch_cap * stride) by (nonlinear_arith)
                requires
                    0 <= self.batch_cap,
                    0 <= stride,
            ;
        }
        let region: u64 = self.batch_cap as u64 * stride;
        proof {
            assert forall|x: int| 0 <= x < bases@.len() implies #[trigger] bases@[x] + region
                <= u64::MAX by {
                assert(self.kcache@[x / 2] + region <= u64::MAX);
                assert(self.vcache@[x / 2] + region <= u64::MAX);
            }
        }
        let yes: bool = is_spread(&bases, region);
        proof {
            if yes {
                assert forall|x: int, y: int|
                    #![trigger cache_base(*self, x), cache_base(*self, y)]
                    0 <= x < y < 2 * self.kcache@.len() implies cache_base(*self, x) + region
                    <= cache_base(*self, y) || cache_base(*self, y) + region <= cache_base(
                    *self,
                    x,
                ) by {
                    assert(bases@[x] == cache_base(*self, x));
                    assert(bases@[y] == cache_base(*self, y));
                }
            } else {
                let (x, y) = choose|x: int, y: int|
                    #![trigger bases@[x], bases@[y]]
                    0 <= x < y < bases@.len() && !(bases@[x] + region <= bases@[y] || bases@[y]
                        + region <= bases@[x]);
                assert(bases@[x] == cache_base(*self, x));
                assert(bases@[y] == cache_base(*self, y));
            }
        }
        yes
    }
}

impl KimiDecoder {
    /// Whether the caches share no memory.
    pub fn caches_are_apart(&self) -> (yes: bool)
        requires
            self.wf(),
        ensures
            yes == latents_apart(*self),
    {
        if self.cache.len() == 0 {
            return true;
        }
        let d: KimiDims = self.dims;
        proof {
            lemma_row_stride(d);
        }
        let stride: u64 = d.max_seq as u64 * (d.kv_lora + d.rope) as u64 * 4;
        proof {
            assert(self.cache@[0] + self.batch_cap * stride <= u64::MAX);
            assert(0 <= self.batch_cap * stride) by (nonlinear_arith)
                requires
                    0 <= self.batch_cap,
                    0 <= stride,
            ;
        }
        let region: u64 = self.batch_cap as u64 * stride;
        is_spread(&self.cache, region)
    }
}

} // verus!
