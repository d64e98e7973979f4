//! What parking a context does to device memory: its KV is copied to the host
//! run by run, and back the same way.

use crate::decode::{Decoder, KvRun};
use crate::kimi::KimiDecoder;
use vstd::prelude::*;

verus! {

/// Device memory: the byte at each address.
pub type Memory = spec_fn(int) -> u8;

/// The host copy of the first `n` runs.
pub open spec fn gathered(memory: Memory, runs: Seq<KvRun>, n: nat) -> Seq<u8>
    decreases n,
{
    if n == 0 {
        Seq::empty()
    } else {
        gathered(memory, runs, (n - 1) as nat) + Seq::new(
            runs[n - 1].len as nat,
            |k: int| memory(runs[n - 1].dev + k),
        )
    }
}

/// The address is in run `r`.
pub open spec fn in_run(r: KvRun, a: int) -> bool {
    r.dev <= a < r.dev + r.len
}

/// The address is in one of the first `n` runs.
pub open spec fn covered(runs: Seq<KvRun>, n: nat, a: int) -> bool {
    exists|i: int| 0 <= i < n && #[trigger] in_run(runs[i], a)
}

/// The byte at address `a` once the first `n` runs were copied back from
/// `host`.
pub open spec fn scattered(memory: Memory, runs: Seq<KvRun>, host: Seq<u8>, n: nat, a: int) -> u8
    decreases n,
{
    if n == 0 {
        memory(a)
    } else if in_run(runs[n - 1], a) {
        host[runs[n - 1].host + (a - runs[n - 1].dev)]
    } else {
        scattered(memory, runs, host, (n - 1) as nat, a)
    }
}

/// The runs fill the host copy from its start, `size` bytes each.
pub open spec fn tiled(runs: Seq<KvRun>, size: nat) -> bool {
    forall|i: int|
        #![trigger runs[i]]
        0 <= i < runs.len() ==> runs[i].host == i * size && runs[i].len == size
}

pub proof fn lemma_gathered(memory: Memory, runs: Seq<KvRun>, size: nat, n: nat, i: int, k: int)
    requires
        tiled(runs, size),
        n <= runs.len(),
        0 <= i < n,
        0 <= k < size,
    ensures
        gathered(memory, runs, n).len() == n * size,
        0 <= i * size + k < n * size,
        gathered(memory, runs, n)[i * size + k] == memory(runs[i].dev + k),
    decreases n,
{
    lemma_gathered_len(memory, runs, size, n);
    lemma_gathered_len(memory, runs, size, (n - 1) as nat);
    assert((n - 1) * size + size == n * size) by (nonlinear_arith);
    assert(0 <= i * size) by (nonlinear_arith)
        requires
            0 <= i,
            0 <= size,
    ;
    assert(i * size + size <= n * size) by (nonlinear_arith)
        requires
            i + 1 <= n,
            0 <= size,
    ;
    if i < n - 1 {
        lemma_gathered(memory, runs, size, (n - 1) as nat, i, k);
    }
}

pub proof fn lemma_gathered_len(memory: Memory, runs: Seq<KvRun>, size: nat, n: nat)
    requires
        tiled(runs, size),
        n <= runs.len(),
    ensures
        gathered(memory, runs, n).len() == n * size,
    decreases n,
{
    if n > 0 {
        lemma_gathered_len(memory, runs, size, (n - 1) as nat);
        assert(runs[n - 1].len == size);
        assert((n - 1) * size + size == n * size) by (nonlinear_arith);
    } else {
        assert(0 * size == 0) by (nonlinear_arith);
    }
}

pub proof fn lemma_uncovered(memory: Memory, runs: Seq<KvRun>, host: Seq<u8>, n: nat, a: int)
    requires
        !covered(runs, n, a),
    ensures
        scattered(memory, runs, host, n, a) == memory(a),
    decreases n,
{
    if n > 0 {
        assert(!in_run(runs[n - 1], a));
        assert(!covered(runs, (n - 1) as nat, a)) by {
            if covered(runs, (n - 1) as nat, a) {
                let i = choose|i: int| 0 <= i < n - 1 && #[trigger] in_run(runs[i], a);
                assert(0 <= i < n && in_run(runs[i], a));
            }
        }
        lemma_uncovered(memory, runs, host, (n - 1) as nat, a);
    }
}

proof fn lemma_restored(
    before: Memory,
    after: Memory,
    runs: Seq<KvRun>,
    size: nat,
    n: nat,
    a: int,
)
    requires
        tiled(runs, size),
        n <= runs.len(),
    ensures
        scattered(after, runs, gathered(before, runs, runs.len()), n, a) == (if covered(
            runs,
            n,
            a,
        ) {
            before(a)
        } else {
            after(a)
        }),
    decreases n,
{
    if n > 0 {
        let r = runs[n - 1];
        lemma_restored(before, after, runs, size, (n - 1) as nat, a);
        if in_run(r, a) {
            lemma_gathered(before, runs, size, runs.len(), n - 1, a - r.dev);
        } else if covered(runs, n, a) {
            let i = choose|i: int| 0 <= i < n && #[trigger] in_run(runs[i], a);
            assert(i < n - 1);
            assert(covered(runs, (n - 1) as nat, a));
        }
    }
}

/// Every run of a context of the Qwen engine.
pub open spec fn context_runs(d: Decoder, seq: nat, len: nat) -> Seq<KvRun> {
    Seq::new((2 * d.kcache@.len() * d.dims.kv_heads) as nat, |i: int| d.kv_run(seq, len, i))
}

/// Restoring a parked context is lossless: copying runs to the host and, later,
/// back leaves in all of them what was there when they were parked, and
/// touches nothing else.
pub proof fn law_parked_context_is_restored(
    d: Decoder,
    seq: nat,
    len: nat,
    before: Memory,
    after: Memory,
    a: int,
)
    requires
        d.wf(),
        len <= d.dims.max_seq,
        d.kv_bytes(len) <= usize::MAX,
    ensures
        ({
            let runs = context_runs(d, seq, len);
            let n = runs.len();
            &&& gathered(before, runs, n).len() == d.kv_bytes(len)
            &&& scattered(after, runs, gathered(before, runs, n), n, a) == (if covered(
                runs,
                n,
                a,
            ) {
                before(a)
            } else {
                after(a)
            })
        }),
{
    let runs = context_runs(d, seq, len);
    let n = runs.len() as int;
    let size = d.run_bytes(len);
    assert forall|i: int| #![trigger runs[i]] 0 <= i < runs.len() implies runs[i].host == i * size
        && runs[i].len == size by {
        assert(0 <= i * size && i * size + size <= n * size) by (nonlinear_arith)
            requires
                0 <= i < n,
                0 <= size,
        ;
    }
    lemma_gathered_len(before, runs, size, runs.len());
    lemma_restored(before, after, runs, size, runs.len(), a);
}

/// Every run of a context of the Kimi engine.
pub open spec fn latent_runs(d: KimiDecoder, seq: nat, len: nat) -> Seq<KvRun> {
    Seq::new(d.cache@.len(), |l: int| d.kv_run(seq, len, l))
}

/// Restoring a parked context of the Kimi engine is lossless too.
pub proof fn law_parked_latents_are_restored(
    d: KimiDecoder,
    seq: nat,
    len: nat,
    before: Memory,
    after: Memory,
    a: int,
)
    requires
        d.wf(),
        len <= d.dims.max_seq,
        d.kv_bytes(len) <= usize::MAX,
    ensures
        ({
            let runs = latent_runs(d, seq, len);
            let n = runs.len();
            &&& gathered(before, runs, n).len() == d.kv_bytes(len)
            &&& scattered(after, runs, gathered(before, runs, n), n, a) == (if covered(
                runs,
                n,
                a,
            ) {
                before(a)
            } else {
                after(a)
            })
        }),
{
    let runs = latent_runs(d, seq, len);
    let n = runs.len() as int;
    let size = d.run_bytes(len);
    assert forall|i: int| #![trigger runs[i]] 0 <= i < runs.len() implies runs[i].host == i * size
        && runs[i].len == size by {
        assert(0 <= i * size && i * size + size <= n * size) by (nonlinear_arith)
            requires
                0 <= i < n,
                0 <= size,
        ;
    }
    lemma_gathered_len(before, runs, size, runs.len());
    lemma_restored(before, after, runs, size, runs.len(), a);
}

} // verus!
