//! A parked context may come back into another slot than the one it left: the
//! new slot then holds it, and no other slot has changed.

use crate::any::{AnyDecoder, Plan};
use crate::apart::{cache_base, caches_apart, latents_apart};
use crate::decode::{head_stride, kv_elem, slot_stride, Decoder, KvError, KvRun};
use crate::kimi::{row_stride, KimiDecoder};
use crate::parking::{
    context_runs, covered, gathered, in_run, latent_runs, lemma_gathered, lemma_gathered_len,
    lemma_uncovered, scattered, tiled, Memory,
};
use vstd::prelude::*;

verus! {

/// Two runs share no address.
pub open spec fn apart(r: KvRun, s: KvRun) -> bool {
    r.dev + r.len <= s.dev || s.dev + s.len <= r.dev
}

/// No two of the runs share an address.
pub open spec fn all_apart(runs: Seq<KvRun>) -> bool {
    forall|i: int, j: int|
        #![trigger runs[i], runs[j]]
        0 <= i < j < runs.len() ==> apart(runs[i], runs[j])
}

/// The memory once `host` was copied into the runs.
pub open spec fn restored(memory: Memory, runs: Seq<KvRun>, host: Seq<u8>) -> Memory {
    |x: int| scattered(memory, runs, host, runs.len(), x)
}

proof fn lemma_scattered(
    memory: Memory,
    runs: Seq<KvRun>,
    host: Seq<u8>,
    size: nat,
    n: nat,
    i: int,
    k: int,
)
    requires
        tiled(runs, size),
        all_apart(runs),
        n <= runs.len(),
        0 <= i < n,
        0 <= k < size,
    ensures
        scattered(memory, runs, host, n, runs[i].dev + k) == host[i * size + k],
    decreases n,
{
    let x = runs[i].dev + k;
    assert(runs[i].len == size);
    if i < n - 1 {
        assert(apart(runs[i], runs[n - 1]));
        assert(!in_run(runs[n - 1], x));
        lemma_scattered(memory, runs, host, size, (n - 1) as nat, i, k);
    }
}

/// What was copied into runs that lie apart can be copied out again.
proof fn lemma_copied_back(memory: Memory, runs: Seq<KvRun>, host: Seq<u8>, size: nat)
    requires
        tiled(runs, size),
        all_apart(runs),
        host.len() == runs.len() * size,
    ensures
        gathered(restored(memory, runs, host), runs, runs.len()) == host,
{
    let r = restored(memory, runs, host);
    let n = runs.len();
    let back = gathered(r, runs, n);
    lemma_gathered_len(r, runs, size, n);
    assert forall|x: int| 0 <= x < host.len() implies back[x] == host[x] by {
        let w = size as int;
        assert(w > 0) by (nonlinear_arith)
            requires
                0 <= x < n * w,
                0 <= w,
        ;
        let i = x / w;
        let k = x % w;
        vstd::arithmetic::div_mod::lemma_fundamental_div_mod(x, w);
        assert(i * w == w * i) by (nonlinear_arith);
        assert(0 <= i < n) by (nonlinear_arith)
            requires
                0 <= x < n * w,
                x == w * i + k,
                0 <= k < w,
        ;
        lemma_gathered(r, runs, size, n, i, k);
        lemma_scattered(memory, runs, host, size, n, i, k);
    }
    assert(back =~= host);
}

/// Runs that lie apart from those that were written hold what they held.
proof fn lemma_untouched(
    memory: Memory,
    runs: Seq<KvRun>,
    host: Seq<u8>,
    others: Seq<KvRun>,
    n: nat,
)
    requires
        n <= others.len(),
        forall|i: int, j: int|
            #![trigger runs[i], others[j]]
            0 <= i < runs.len() && 0 <= j < others.len() ==> apart(runs[i], others[j]),
    ensures
        gathered(restored(memory, runs, host), others, n) == gathered(memory, others, n),
    decreases n,
{
    if n > 0 {
        lemma_untouched(memory, runs, host, others, (n - 1) as nat);
        let o = others[n - 1];
        let r = restored(memory, runs, host);
        let a = Seq::new(o.len as nat, |k: int| r(o.dev + k));
        let b = Seq::new(o.len as nat, |k: int| memory(o.dev + k));
        assert forall|k: int| 0 <= k < o.len implies a[k] == b[k] by {
            let x = o.dev + k;
            assert(!covered(runs, runs.len(), x)) by {
                if covered(runs, runs.len(), x) {
                    let i = choose|i: int| 0 <= i < runs.len() && #[trigger] in_run(runs[i], x);
                    assert(apart(runs[i], o));
                }
            }
            lemma_uncovered(memory, runs, host, runs.len(), x);
        }
        assert(a =~= b);
    }
}

pub proof fn lemma_run_place(d: Decoder, seq: nat, len: nat, i: int)
    requires
        d.wf(),
        seq < d.batch_cap,
        len <= d.dims.max_seq,
        d.kv_bytes(len) <= usize::MAX,
        0 <= i < 2 * d.kcache@.len() * d.dims.kv_heads,
    ensures
        ({
            let heads = d.dims.kv_heads as int;
            let slot = slot_stride(d.dims, d.kv_f16) as int;
            let head = head_stride(d.dims, d.kv_f16) as int;
            let c = i / heads;
            let h = i % heads;
            let r = d.kv_run(seq, len, i);
            let n = 2 * d.kcache@.len() * heads;
            &&& heads > 0
            &&& i == c * heads + h
            &&& 0 <= h < heads
            &&& 0 <= c < 2 * d.kcache@.len()
            &&& r.dev == cache_base(d, c) + seq * slot + h * head
            &&& r.host == i * d.run_bytes(len)
            &&& r.len == d.run_bytes(len)
            &&& d.run_bytes(len) <= head
            &&& 0 <= seq * slot
            &&& 0 <= h * head
            &&& seq * slot + h * head + head <= d.batch_cap * slot
        }),
{
    let heads = d.dims.kv_heads as int;
    let slot = slot_stride(d.dims, d.kv_f16) as int;
    let head = head_stride(d.dims, d.kv_f16) as int;
    let layers = d.kcache@.len() as int;
    assert(heads > 0) by (nonlinear_arith)
        requires
            0 <= heads,
            0 <= i < 2 * layers * heads,
    ;
    let c = i / heads;
    let h = i % heads;
    vstd::arithmetic::div_mod::lemma_fundamental_div_mod(i, heads);
    assert(heads * c == c * heads) by (nonlinear_arith);
    assert(0 <= c < 2 * layers) by (nonlinear_arith)
        requires
            0 <= i < 2 * layers * heads,
            i == c * heads + h,
            0 <= h < heads,
    ;
    crate::decode::lemma_run_fits(d.dims, d.kv_f16, len as int);
    crate::decode::lemma_kv_address(
        d.batch_cap as int,
        heads,
        head,
        seq as int,
        h,
    );
    assert(slot == heads * head);
    let l = c / 2;
    assert(0 <= l < layers);
    assert(d.kcache@[l] + d.batch_cap * slot <= u64::MAX);
    assert(d.vcache@[l] + d.batch_cap * slot <= u64::MAX);
    let size = d.run_bytes(len) as int;
    let n = 2 * layers * heads;
    assert(0 <= i * size && i * size + size <= n * size) by (nonlinear_arith)
        requires
            0 <= i < n,
            0 <= size,
    ;
}

proof fn lemma_places_apart(d: Decoder, s: nat, m: nat, i: int, t: nat, n: nat, j: int)
    requires
        d.wf(),
        caches_apart(d),
        s < d.batch_cap,
        t < d.batch_cap,
        m <= d.dims.max_seq,
        n <= d.dims.max_seq,
        d.kv_bytes(m) <= usize::MAX,
        d.kv_bytes(n) <= usize::MAX,
        0 <= i < 2 * d.kcache@.len() * d.dims.kv_heads,
        0 <= j < 2 * d.kcache@.len() * d.dims.kv_heads,
        s != t || i != j,
    ensures
        apart(d.kv_run(s, m, i), d.kv_run(t, n, j)),
{
    lemma_run_place(d, s, m, i);
    lemma_run_place(d, t, n, j);
    let heads = d.dims.kv_heads as int;
    let head = head_stride(d.dims, d.kv_f16) as int;
    let slot = slot_stride(d.dims, d.kv_f16) as int;
    let (c, g) = (i / heads, i % heads);
    let (e, h) = (j / heads, j % heads);
    if c < e {
        assert(cache_base(d, c) + d.batch_cap * slot <= cache_base(d, e) || cache_base(d, e)
            + d.batch_cap * slot <= cache_base(d, c));
    } else if e < c {
        assert(cache_base(d, e) + d.batch_cap * slot <= cache_base(d, c) || cache_base(d, c)
            + d.batch_cap * slot <= cache_base(d, e));
    } else if s < t {
        crate::decode::lemma_kv_address(t as int, heads, head, s as int, g);
    } else if t < s {
        crate::decode::lemma_kv_address(s as int, heads, head, t as int, h);
    } else if g < h {
        assert(g * head + head <= h * head) by (nonlinear_arith)
            requires
                g + 1 <= h,
                0 <= head,
        ;
    } else {
        assert(h < g);
        assert(h * head + head <= g * head) by (nonlinear_arith)
            requires
                h + 1 <= g,
                0 <= head,
        ;
    }
}

proof fn lemma_context_tiled(d: Decoder, seq: nat, len: nat)
    requires
        d.wf(),
        seq < d.batch_cap,
        len <= d.dims.max_seq,
        d.kv_bytes(len) <= usize::MAX,
    ensures
        tiled(context_runs(d, seq, len), d.run_bytes(len)),
{
    let runs = context_runs(d, seq, len);
    assert forall|i: int| #![trigger runs[i]] 0 <= i < runs.len() implies runs[i].host == i
        * d.run_bytes(len) && runs[i].len == d.run_bytes(len) by {
        lemma_run_place(d, seq, len, i);
    }
}

/// A context that is parked from slot `a` and restored into slot `b`, the same
/// or another, is in slot `b` bit for bit. Nothing outside the context changes,
/// and no other slot does.
pub proof fn law_context_moves_between_slots(
    d: Decoder,
    a: nat,
    b: nat,
    len: nat,
    before: Memory,
    after: Memory,
)
    requires
        d.wf(),
        caches_apart(d),
        a < d.batch_cap,
        b < d.batch_cap,
        len <= d.dims.max_seq,
        d.kv_bytes(len) <= usize::MAX,
    ensures
        ({
            let from = context_runs(d, a, len);
            let into = context_runs(d, b, len);
            let parked = gathered(before, from, from.len());
            let now = restored(after, into, parked);
            &&& parked.len() == d.kv_bytes(len)
            &&& gathered(now, into, into.len()) == parked
            &&& forall|x: int| !#[trigger] covered(into, into.len(), x) ==> now(x) == after(x)
            &&& forall|c: nat, m: nat|
                #![trigger context_runs(d, c, m)]
                c < d.batch_cap && c != b && m <= d.dims.max_seq && d.kv_bytes(m) <= usize::MAX
                    ==> gathered(now, context_runs(d, c, m), context_runs(d, c, m).len())
                    == gathered(after, context_runs(d, c, m), context_runs(d, c, m).len())
        }),
{
    let from = context_runs(d, a, len);
    let into = context_runs(d, b, len);
    let size = d.run_bytes(len);
    let parked = gathered(before, from, from.len());
    let now = restored(after, into, parked);
    lemma_context_tiled(d, a, len);
    lemma_context_tiled(d, b, len);
    lemma_gathered_len(before, from, size, from.len());
    assert forall|i: int, j: int| #![trigger into[i], into[j]] 0 <= i < j < into.len() implies apart(
        into[i],
        into[j],
    ) by {
        lemma_places_apart(d, b, len, i, b, len, j);
    }
    lemma_copied_back(after, into, parked, size);
    assert forall|x: int| !#[trigger] covered(into, into.len(), x) implies now(x) == after(x) by {
        lemma_uncovered(after, into, parked, into.len(), x);
    }
    assert forall|c: nat, m: nat|
        #![trigger context_runs(d, c, m)]
        c < d.batch_cap && c != b && m <= d.dims.max_seq && d.kv_bytes(m)
            <= usize::MAX implies gathered(
        now,
        context_runs(d, c, m),
        context_runs(d, c, m).len(),
    ) == gathered(after, context_runs(d, c, m), context_runs(d, c, m).len()) by {
        let others = context_runs(d, c, m);
        assert forall|i: int, j: int|
            #![trigger into[i], others[j]]
            0 <= i < into.len() && 0 <= j < others.len() implies apart(into[i], others[j]) by {
            lemma_places_apart(d, b, len, i, c, m, j);
        }
        lemma_untouched(after, into, parked, others, others.len());
    }
}

pub proof fn lemma_latent_place(d: KimiDecoder, seq: nat, len: nat, l: int)
    requires
        d.wf(),
        seq < d.batch_cap,
        len <= d.dims.max_seq,
        d.kv_bytes(len) <= usize::MAX,
        0 <= l < d.cache@.len(),
    ensures
        ({
            let row = row_stride(d.dims) as int;
            let r = d.kv_run(seq, len, l);
            &&& r.dev == d.cache@[l] + seq * row
            &&& r.host == l * d.run_bytes(len)
            &&& r.len == d.run_bytes(len)
            &&& d.run_bytes(len) <= row
            &&& 0 <= seq * row
            &&& seq * row + row <= d.batch_cap * row
        }),
{
    let row = row_stride(d.dims) as int;
    crate::kimi::lemma_row_run(d.dims, len as int);
    crate::kimi::lemma_row_stride(d.dims);
    assert(0 <= seq * row && seq * row + row <= d.batch_cap * row) by (nonlinear_arith)
        requires
            0 <= seq < d.batch_cap,
            0 <= row,
    ;
    assert(d.cache@[l] + d.batch_cap * row <= u64::MAX);
    let n = d.cache@.len() as int;
    let size = d.run_bytes(len) as int;
    assert(0 <= l * size && l * size + size <= n * size) by (nonlinear_arith)
        requires
            0 <= l < n,
            0 <= size,
    ;
}

proof fn lemma_latents_apart(d: KimiDecoder, s: nat, m: nat, i: int, t: nat, n: nat, j: int)
    requires
        d.wf(),
        latents_apart(d),
        s < d.batch_cap,
        t < d.batch_cap,
        m <= d.dims.max_seq,
        n <= d.dims.max_seq,
        d.kv_bytes(m) <= usize::MAX,
        d.kv_bytes(n) <= usize::MAX,
        0 <= i < d.cache@.len(),
        0 <= j < d.cache@.len(),
        s != t || i != j,
    ensures
        apart(d.kv_run(s, m, i), d.kv_run(t, n, j)),
{
    lemma_latent_place(d, s, m, i);
    lemma_latent_place(d, t, n, j);
    let row = row_stride(d.dims) as int;
    if i < j {
        assert(d.cache@[i] + d.batch_cap * row <= d.cache@[j] || d.cache@[j] + d.batch_cap * row
            <= d.cache@[i]);
    } else if j < i {
        assert(d.cache@[j] + d.batch_cap * row <= d.cache@[i] || d.cache@[i] + d.batch_cap * row
            <= d.cache@[j]);
    } else if s < t {
        assert(s * row + row <= t * row) by (nonlinear_arith)
            requires
                s + 1 <= t,
                0 <= row,
        ;
    } else {
        assert(t * row + row <= s * row) by (nonlinear_arith)
            requires
                t + 1 <= s,
                0 <= row,
        ;
    }
}

proof fn lemma_latents_tiled(d: KimiDecoder, seq: nat, len: nat)
    requires
        d.wf(),
        seq < d.batch_cap,
        len <= d.dims.max_seq,
        d.kv_bytes(len) <= usize::MAX,
    ensures
        tiled(latent_runs(d, seq, len), d.run_bytes(len)),
{
    let runs = latent_runs(d, seq, len);
    assert forall|i: int| #![trigger runs[i]] 0 <= i < runs.len() implies runs[i].host == i
        * d.run_bytes(len) && runs[i].len == d.run_bytes(len) by {
        lemma_latent_place(d, seq, len, i);
    }
}

/// A context of the Kimi engine moves between slots in the same way.
pub proof fn law_latents_move_between_slots(
    d: KimiDecoder,
    a: nat,
    b: nat,
    len: nat,
    before: Memory,
    after: Memory,
)
    requires
        d.wf(),
        latents_apart(d),
        a < d.batch_cap,
        b < d.batch_cap,
        len <= d.dims.max_seq,
        d.kv_bytes(len) <= usize::MAX,
    ensures
        ({
            let from = latent_runs(d, a, len);
            let into = latent_runs(d, b, len);
            let parked = gathered(before, from, from.len());
            let now = restored(after, into, parked);
            &&& parked.len() == d.kv_bytes(len)
            &&& gathered(now, into, into.len()) == parked
            &&& forall|x: int| !#[trigger] covered(into, into.len(), x) ==> now(x) == after(x)
            &&& forall|c: nat, m: nat|
                #![trigger latent_runs(d, c, m)]
                c < d.batch_cap && c != b && m <= d.dims.max_seq && d.kv_bytes(m) <= usize::MAX
                    ==> gathered(now, latent_runs(d, c, m), latent_runs(d, c, m).len())
                    == gathered(after, latent_runs(d, c, m), latent_runs(d, c, m).len())
        }),
{
    let from = latent_runs(d, a, len);
    let into = latent_runs(d, b, len);
    let size = d.run_bytes(len);
    let parked = gathered(before, from, from.len());
    let now = restored(after, into, parked);
    lemma_latents_tiled(d, a, len);
    lemma_latents_tiled(d, b, len);
    lemma_gathered_len(before, from, size, from.len());
    assert forall|i: int, j: int| #![trigger into[i], into[j]] 0 <= i < j < into.len() implies apart(
        into[i],
        into[j],
    ) by {
        lemma_latents_apart(d, b, len, i, b, len, j);
    }
    lemma_copied_back(after, into, parked, size);
    assert forall|x: int| !#[trigger] covered(into, into.len(), x) implies now(x) == after(x) by {
        lemma_uncovered(after, into, parked, into.len(), x);
    }
    assert forall|c: nat, m: nat|
        #![trigger latent_runs(d, c, m)]
        c < d.batch_cap && c != b && m <= d.dims.max_seq && d.kv_bytes(m)
            <= usize::MAX implies gathered(
        now,
        latent_runs(d, c, m),
        latent_runs(d, c, m).len(),
    ) == gathered(after, latent_runs(d, c, m), latent_runs(d, c, m).len()) by {
        let others = latent_runs(d, c, m);
        assert forall|i: int, j: int|
            #![trigger into[i], others[j]]
            0 <= i < into.len() && 0 <= j < others.len() implies apart(into[i], others[j]) by {
            lemma_latents_apart(d, b, len, i, c, m, j);
        }
        lemma_untouched(after, into, parked, others, others.len());
    }
}

/// What an import gives back of an export: a context that was copied out of
/// slot `a` can be imported into any slot `b` that there is, and an export of
/// `b` then gives the same bytes. Nothing but the copies' own places changes.
pub proof fn law_import_gives_back_the_export(
    d: AnyDecoder,
    a: usize,
    b: usize,
    len: usize,
    before: Memory,
    after: Memory,
)
    requires
        d.wf(),
        d.exports(a, len) is Ok,
    ensures
        ({
            let from = d.exports(a, len)->Ok_0;
            let blob = gathered(before, from, from.len());
            let into = d.exports(b, len)->Ok_0;
            let now = restored(after, into, blob);
            &&& blob.len() == d.kv_bytes(len as nat)
            &&& blob.len() <= usize::MAX
            &&& if b < d.spec_batch_cap() {
                &&& d.exports(b, len) is Ok
                &&& d.imports(b, len, blob.len() as usize) == Ok::<Seq<KvRun>, KvError>(into)
                &&& gathered(now, into, into.len()) == blob
                &&& forall|x: int| !#[trigger] covered(into, into.len(), x) ==> now(x) == after(x)
            } else {
                d.imports(b, len, blob.len() as usize) == Err::<Seq<KvRun>, KvError>(
                    KvError::SequenceSlot { seq: b },
                )
            }
        }),
{
    match d.plan {
        Plan::Qwen(q) => {
            if b < q.batch_cap {
                law_context_moves_between_slots(q, a as nat, b as nat, len as nat, before, after);
            } else {
                law_context_moves_between_slots(q, a as nat, a as nat, len as nat, before, after);
            }
        },
        Plan::Kimi(k) => {
            if b < k.batch_cap {
                law_latents_move_between_slots(k, a as nat, b as nat, len as nat, before, after);
            } else {
                law_latents_move_between_slots(k, a as nat, a as nat, len as nat, before, after);
            }
        },
    }
}

/// A context takes as many bytes on the host as its tokens do, each of them the
/// same.
pub proof fn law_kv_bytes_are_per_token(d: AnyDecoder, len: nat)
    requires
        d.wf(),
    ensures
        d.kv_bytes(len) == len * d.kv_bytes(1),
{
    match d.plan {
        Plan::Qwen(q) => {
            let n = 2 * q.kcache@.len() * q.dims.kv_heads as nat;
            let h = q.dims.head_dim as nat;
            let e = kv_elem(q.kv_f16);
            assert(q.kv_bytes(len) == n * (len * h * e));
            assert(q.kv_bytes(1) == n * (1 * h * e));
            assert(n * (len * h * e) == len * (n * (1 * h * e))) by (nonlinear_arith);
        },
        Plan::Kimi(k) => {
            let n = k.cache@.len() as int;
            let r = k.dims.row();
            assert(n * (len * r * 4) == len * (n * (1 * r * 4))) by (nonlinear_arith);
        },
    }
}

/// A context cannot be imported exactly where there is no such slot, a slot
/// does not hold so many tokens, or the copy is not as long as they are.
pub proof fn law_import_is_refused(d: AnyDecoder, seq: usize, len: usize, blob: usize)
    requires
        d.wf(),
    ensures
        d.imports(seq, len, blob) is Err <==> seq >= d.spec_batch_cap() || len > d.spec_max_seq()
            || blob != len * d.kv_bytes(1),
{
    law_kv_bytes_are_per_token(d, len as nat);
}

} // verus!
