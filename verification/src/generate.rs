//! Generation: which tokens a stream prefills, emits and feeds back, and what
//! it leaves in its sequence slot.

use crate::steps::Entry;
use vstd::prelude::*;

verus! {

/// A stretch of a prompt that is prefilled in one step; the last one's logits
/// give the first new token.
#[derive(Debug, Clone, Copy, PartialEq, Eq, Structural)]
pub struct Chunk {
    pub start: usize,
    pub end: usize,
    pub last: bool,
}

/// Chunk `i` of the prompt positions `reuse..len` in steps of `cap`.
pub open spec fn chunk_at(len: nat, reuse: nat, cap: nat, i: int) -> Chunk {
    let start = reuse + i * cap;
    let end = if start + cap <= len {
        start + cap
    } else {
        len as int
    };
    Chunk { start: start as usize, end: end as usize, last: end == len }
}

/// How many chunks there are.
pub open spec fn chunk_count(len: nat, reuse: nat, cap: nat) -> nat {
    (len - reuse + cap - 1) as nat / cap
}

/// The chunks in which a prompt of `len` tokens is prefilled, of which the
/// first `reuse` are in the slot already.
pub fn prefill_chunks(len: usize, reuse: usize, cap: usize) -> (chunks: Vec<Chunk>)
    requires
        cap > 0,
        reuse <= len,
    ensures
        chunks@.len() == chunk_count(len as nat, reuse as nat, cap as nat),
        forall|i: int|
            0 <= i < chunks@.len() ==> #[trigger] chunks@[i] == chunk_at(
                len as nat,
                reuse as nat,
                cap as nat,
                i,
            ),
{
    let mut chunks: Vec<Chunk> = Vec::new();
    let mut start: usize = reuse;
    proof {
        assert(0 * cap == 0) by (nonlinear_arith);
        assert((cap - 1) as int / cap as int == 0) by (nonlinear_arith)
            requires
                cap > 0,
        ;
    }
    while start < len
        invariant
            cap > 0,
            reuse <= start <= len,
            start < len ==> start == reuse + chunks@.len() * cap,
            start == len ==> chunks@.len() == chunk_count(len as nat, reuse as nat, cap as nat),
            forall|i: int|
                0 <= i < chunks@.len() ==> #[trigger] chunks@[i] == chunk_at(
                    len as nat,
                    reuse as nat,
                    cap as nat,
                    i,
                ),
        decreases len - start,
    {
        let end: usize = if len - start > cap {
            start + cap
        } else {
            len
        };
        let ghost k = chunks@.len() as int;
        chunks.push(Chunk { start, end, last: end == len });
        proof {
            let c = cap as int;
            assert((k + 1) * c == k * c + c) by (nonlinear_arith);
            if end == len {
                let r = len - reuse + c - 1 - (k + 1) * c;
                vstd::arithmetic::div_mod::lemma_fundamental_div_mod_converse(
                    len - reuse + c - 1,
                    c,
                    k + 1,
                    r,
                );
            }
        }
        start = end;
    }
    chunks
}

/// Prefill covers what the slot does not hold, once and in order: the first
/// chunk starts where reuse ends, each starts where the one before it ends,
/// none is longer than a step, and only the last reaches the end of the
/// prompt.
pub proof fn law_prefill_tiles(len: nat, reuse: nat, cap: nat, i: int)
    requires
        cap > 0,
        reuse <= len <= usize::MAX,
        0 <= i < chunk_count(len, reuse, cap),
    ensures
        chunk_at(len, reuse, cap, 0).start == reuse,
        ({
            let c = chunk_at(len, reuse, cap, i);
            &&& c.start < c.end <= len
            &&& c.end - c.start <= cap
            &&& c.last == (i == chunk_count(len, reuse, cap) - 1)
            &&& !c.last ==> chunk_at(len, reuse, cap, i + 1).start == c.end
            &&& c.last ==> c.end == len
        }),
{
    let n = chunk_count(len, reuse, cap) as int;
    let c = cap as int;
    let m = len - reuse;
    assert((i + 1) * c == i * c + c) by (nonlinear_arith);
    assert(0 * c == 0) by (nonlinear_arith);
    assert(0 <= i * c) by (nonlinear_arith)
        requires
            0 <= i,
            0 < c,
    ;
    vstd::arithmetic::div_mod::lemma_fundamental_div_mod(m + c - 1, c);
    assert((i + 1) * c <= n * c) by (nonlinear_arith)
        requires
            i + 1 <= n,
            0 < c,
    ;
    assert(n * c == c * n) by (nonlinear_arith);
    if i + 1 < n {
        assert((i + 2) * c <= n * c) by (nonlinear_arith)
            requires
                i + 2 <= n,
                0 < c,
        ;
        assert((i + 2) * c == i * c + 2 * c) by (nonlinear_arith);
    }
}

fn is_eos(eos: &Vec<u32>, token: u32) -> (yes: bool)
    ensures
        yes == eos@.contains(token),
{
    let mut i: usize = 0;
    while i < eos.len()
        invariant
            i <= eos@.len(),
            forall|k: int| 0 <= k < i ==> #[trigger] eos@[k] != token,
        decreases eos@.len() - i,
    {
        if eos[i] == token {
            return true;
        }
        i += 1;
    }
    false
}

/// One stream of generated tokens behind a prompt.
#[derive(Debug)]
pub struct Stream {
    prompt: Vec<u32>,
    max_tokens: usize,
    max_seq: usize,
    out: Vec<u32>,
    /// Generated tokens whose KV actually landed in the slot. Every token is
    /// fed back before the next is produced, so this is normally all of them
    /// — except the last one at the end of the context, which is emitted and
    /// then never stepped. The stored context must not claim it.
    fed: usize,
}

/// A stream, mathematically.
pub struct StreamView {
    pub prompt: Seq<u32>,
    pub max_tokens: nat,
    pub max_seq: nat,
    pub out: Seq<u32>,
    pub fed: nat,
}

impl StreamView {
    /// Every token but perhaps the last has been fed back, at a position that
    /// the context has.
    pub open spec fn wf(self) -> bool {
        &&& self.fed <= self.out.len() <= self.fed + 1
        &&& self.out.len() <= self.max_tokens
        &&& self.fed > 0 ==> self.prompt.len() + self.fed < self.max_seq
        &&& self.prompt.len() + self.max_tokens <= usize::MAX
    }

    /// What the slot holds: the prompt and the tokens that were fed back.
    pub open spec fn context(self) -> Seq<u32> {
        self.prompt + self.out.take(self.fed as int)
    }
}

impl Stream {
    pub closed spec fn view(self) -> StreamView {
        StreamView {
            prompt: self.prompt@,
            max_tokens: self.max_tokens as nat,
            max_seq: self.max_seq as nat,
            out: self.out@,
            fed: self.fed as nat,
        }
    }

    pub open spec fn wf(self) -> bool {
        self@.wf()
    }

    /// A stream that has emitted nothing. `max_tokens` is cut so that positions
    /// stay numbers.
    pub fn new(prompt: Vec<u32>, max_tokens: usize, max_seq: usize) -> (s: Self)
        ensures
            s.wf(),
            s@.prompt == prompt@,
            s@.max_tokens == (if prompt@.len() + max_tokens <= usize::MAX {
                max_tokens as int
            } else {
                usize::MAX - prompt@.len()
            }),
            s@.max_seq == max_seq,
            s@.out.len() == 0,
            s@.fed == 0,
    {
        let room: usize = usize::MAX - prompt.len();
        let max_tokens: usize = if max_tokens <= room {
            max_tokens
        } else {
            room
        };
        Stream { prompt, max_tokens, max_seq, out: Vec::new(), fed: 0 }
    }

    /// Takes the token that the model produced: it is emitted unless it ends
    /// the sequence or enough have been.
    pub fn offer(&mut self, next: u32, eos: &Vec<u32>) -> (emitted: bool)
        requires
            old(self).wf(),
            old(self)@.fed == old(self)@.out.len(),
        ensures
            final(self).wf(),
            emitted == (old(self)@.out.len() < old(self)@.max_tokens && !eos@.contains(next)),
            final(self)@ == (if emitted {
                StreamView { out: old(self)@.out.push(next), ..old(self)@ }
            } else {
                old(self)@
            }),
    {
        if self.out.len() >= self.max_tokens {
            return false;
        }
        if is_eos(eos, next) {
            return false;
        }
        self.out.push(next);
        true
    }

    /// The token to feed back and its position; `None` at the end of the
    /// context, where the last token stays without KV.
    pub fn feed(&mut self) -> (step: Option<(u32, usize)>)
        requires
            old(self).wf(),
            old(self)@.out.len() == old(self)@.fed + 1,
        ensures
            final(self).wf(),
            ({
                let v = old(self)@;
                let pos = v.prompt.len() + v.fed;
                if pos + 1 >= v.max_seq {
                    step is None && final(self)@ == v
                } else {
                    &&& step == Some((v.out.last(), pos as usize))
                    &&& final(self)@ == (StreamView { fed: v.out.len(), ..v })
                }
            }),
            step is None <==> old(self)@.prompt.len() + old(self)@.out.len() >= old(self)@.max_seq,
            step matches Some((token, pos)) ==> final(self)@.context() == old(self)@.context().push(
                token,
            ) && pos == old(self)@.context().len(),
    {
        let i: usize = self.out.len() - 1;
        let pos: usize = self.prompt.len() + i;
        if pos >= self.max_seq || self.max_seq - pos <= 1 {
            return None;
        }
        self.fed = self.out.len();
        assert(self@.context() =~= old(self)@.context().push(self.out@[i as int]));
        Some((self.out[i], pos))
    }

    /// The tokens emitted so far.
    pub fn tokens(&self) -> (out: &Vec<u32>)
        ensures
            out@ == self@.out,
    {
        &self.out
    }

    /// How long the prompt is.
    pub fn prompt_len(&self) -> (n: usize)
        ensures
            n == self@.prompt.len(),
    {
        self.prompt.len()
    }

    /// The context that the stream leaves in its slot.
    pub fn context(&self) -> (ctx: Vec<u32>)
        requires
            self.wf(),
        ensures
            ctx@ == self@.context(),
    {
        let mut ctx: Vec<u32> = Vec::new();
        let mut i: usize = 0;
        while i < self.prompt.len()
            invariant
                i <= self.prompt@.len(),
                ctx@ == self.prompt@.take(i as int),
            decreases self.prompt@.len() - i,
        {
            ctx.push(self.prompt[i]);
            i += 1;
            assert(ctx@ =~= self.prompt@.take(i as int));
        }
        let mut k: usize = 0;
        assert(ctx@ =~= self.prompt@ + self.out@.take(0));
        while k < self.fed
            invariant
                k <= self.fed <= self.out@.len(),
                ctx@ == self.prompt@ + self.out@.take(k as int),
            decreases self.fed - k,
        {
            ctx.push(self.out[k]);
            k += 1;
            assert(ctx@ =~= self.prompt@ + self.out@.take(k as int));
        }
        ctx
    }
}

/// A slot's KV after tokens have been run at consecutive positions from
/// `start` on; `kv` gives the token whose KV each position holds.
pub open spec fn written(kv: Seq<u32>, start: nat, tokens: Seq<u32>) -> Seq<u32> {
    kv.take(start as int) + tokens + kv.skip((start + tokens.len()) as int)
}

/// The context that a stream hands back describes exactly what its slot holds:
/// where the slot held the first `reuse` tokens of the prompt, prefilling the
/// rest and feeding back what was fed leaves the context at its front.
pub proof fn law_context_is_in_slot(v: StreamView, kv: Seq<u32>, reuse: nat)
    requires
        v.wf(),
        reuse <= v.prompt.len() <= v.max_seq,
        kv.len() == v.max_seq,
        kv.take(reuse as int) == v.prompt.take(reuse as int),
    ensures
        ({
            let prefilled = written(kv, reuse, v.prompt.skip(reuse as int));
            let after = written(prefilled, v.prompt.len(), v.out.take(v.fed as int));
            &&& after.len() == v.max_seq
            &&& after.take(v.context().len() as int) == v.context()
        }),
{
    let rest = v.prompt.skip(reuse as int);
    let prefilled = written(kv, reuse, rest);
    let fed = v.out.take(v.fed as int);
    let after = written(prefilled, v.prompt.len(), fed);
    assert(prefilled.take(v.prompt.len() as int) =~= v.prompt) by {
        assert forall|i: int| 0 <= i < v.prompt.len() implies prefilled[i] == v.prompt[i] by {
            if i < reuse {
                assert(kv.take(reuse as int)[i] == v.prompt.take(reuse as int)[i]);
            }
        }
    }
    assert(after.take(v.context().len() as int) =~= v.context());
}

/// Every token that is fed back is run at a position of its own, right behind
/// the one before it and within the context.
pub proof fn law_feed_positions(v: StreamView)
    requires
        v.wf(),
        v.out.len() == v.fed + 1,
        v.prompt.len() + v.fed + 1 < v.max_seq,
    ensures
        (StreamView { fed: v.out.len(), ..v }).wf(),
        (StreamView { fed: v.out.len(), ..v }).context() == v.context().push(v.out.last()),
        v.context().len() == v.prompt.len() + v.fed,
{
    let w = StreamView { fed: v.out.len(), ..v };
    assert(w.context() =~= v.context().push(v.out.last()));
}

/// One stream of a lockstep batch.
#[derive(Debug)]
pub struct BatchStream {
    pub pos: usize,
    pub next: u32,
    pub done: bool,
    pub out: Vec<u32>,
}

/// A stream of a batch, mathematically.
pub struct BatchStreamView {
    /// Where `next` will be run.
    pub pos: nat,
    /// The token that the model produced last.
    pub next: u32,
    pub done: bool,
    pub out: Seq<u32>,
}

impl BatchStream {
    pub open spec fn view(self) -> BatchStreamView {
        BatchStreamView { pos: self.pos as nat, next: self.next, done: self.done, out: self.out@ }
    }
}

/// A round for one stream: it retires at the end of the sequence or of the
/// context, else its token is emitted.
pub open spec fn emitted(s: BatchStreamView, eos: Seq<u32>, max_seq: nat) -> BatchStreamView {
    if s.done {
        s
    } else if eos.contains(s.next) || s.pos >= max_seq {
        BatchStreamView { done: true, ..s }
    } else {
        BatchStreamView { out: s.out.push(s.next), ..s }
    }
}

/// The entries of the streams among the first `n` that are not done, in order.
pub open spec fn active_entries(streams: Seq<BatchStreamView>, n: nat) -> Seq<Entry>
    decreases n,
{
    if n == 0 {
        Seq::empty()
    } else {
        let before = active_entries(streams, (n - 1) as nat);
        let s = streams[n - 1];
        if s.done {
            before
        } else {
            before.push(Entry { token: s.next, pos: s.pos as usize, seq: (n - 1) as usize })
        }
    }
}

/// How many of the first `n` streams are not done.
pub open spec fn active_count(streams: Seq<BatchStreamView>, n: nat) -> nat
    decreases n,
{
    if n == 0 {
        0
    } else {
        active_count(streams, (n - 1) as nat) + (if streams[n - 1].done {
            0nat
        } else {
            1nat
        })
    }
}

/// Stream `i` after a step produced `next`, the tokens of the active streams
/// in order.
pub open spec fn advanced(streams: Seq<BatchStreamView>, next: Seq<u32>, i: int) -> BatchStreamView {
    let s = streams[i];
    if s.done {
        s
    } else {
        BatchStreamView {
            next: next[active_count(streams, i as nat) as int],
            pos: s.pos + 1,
            ..s
        }
    }
}

/// Lockstep batch generation: prompts decode together on independent sequence
/// slots, sharing every layer's expert fetches. Streams retire on their own.
#[derive(Debug)]
pub struct Batch {
    streams: Vec<BatchStream>,
    eos: Vec<u32>,
    max_seq: usize,
    rounds: usize,
}

/// A batch, mathematically.
pub struct BatchView {
    pub streams: Seq<BatchStreamView>,
    pub eos: Seq<u32>,
    pub max_seq: nat,
    /// Rounds that are left.
    pub rounds: nat,
}

/// Whether this many prompts can be decoded together.
pub fn batch_fits(prompts: usize, batch_cap: usize) -> (yes: bool)
    ensures
        yes == (prompts <= batch_cap),
{
    prompts <= batch_cap
}

impl Batch {
    pub closed spec fn view(self) -> BatchView {
        BatchView {
            streams: Seq::new(self.streams@.len(), |i: int| self.streams@[i]@),
            eos: self.eos@,
            max_seq: self.max_seq as nat,
            rounds: self.rounds as nat,
        }
    }

    /// A batch whose streams have prompts of the given lengths, behind which
    /// the model produced the given tokens.
    pub fn new(lens: &Vec<usize>, first: &Vec<u32>, eos: Vec<u32>, max_seq: usize, max_tokens: usize) -> (b:
        Self)
        requires
            lens@.len() == first@.len(),
        ensures
            b@.eos == eos@,
            b@.max_seq == max_seq,
            b@.rounds == max_tokens,
            b@.streams.len() == lens@.len(),
            forall|i: int|
                0 <= i < lens@.len() ==> #[trigger] b@.streams[i] == (BatchStreamView {
                    pos: lens@[i] as nat,
                    next: first@[i],
                    done: false,
                    out: Seq::empty(),
                }),
    {
        let mut streams: Vec<BatchStream> = Vec::new();
        let mut i: usize = 0;
        while i < lens.len()
            invariant
                i <= lens@.len(),
                lens@.len() == first@.len(),
                streams@.len() == i,
                forall|k: int|
                    #![trigger streams@[k]]
                    0 <= k < i ==> streams@[k]@ == (BatchStreamView {
                        pos: lens@[k] as nat,
                        next: first@[k],
                        done: false,
                        out: Seq::empty(),
                    }),
            decreases lens@.len() - i,
        {
            let s = BatchStream { pos: lens[i], next: first[i], done: false, out: Vec::new() };
            assert(s.out@ =~= Seq::<u32>::empty());
            streams.push(s);
            i += 1;
        }
        Batch { streams, eos, max_seq, rounds: max_tokens }
    }

    /// Starts a round: every stream emits its token or retires. The entries to
    /// run next, in the order of the streams; none when the batch is finished.
    pub fn round(&mut self) -> (entries: Vec<Entry>)
        ensures
            final(self)@.eos == old(self)@.eos,
            final(self)@.max_seq == old(self)@.max_seq,
            if old(self)@.rounds == 0 {
                entries@.len() == 0 && final(self)@ == old(self)@
            } else {
                &&& final(self)@.rounds == old(self)@.rounds - 1
                &&& final(self)@.streams.len() == old(self)@.streams.len()
                &&& forall|i: int|
                    0 <= i < old(self)@.streams.len() ==> #[trigger] final(self)@.streams[i]
                        == emitted(old(self)@.streams[i], old(self)@.eos, old(self)@.max_seq)
                &&& entries@ == active_entries(
                    final(self)@.streams,
                    final(self)@.streams.len(),
                )
            },
    {
        let mut entries: Vec<Entry> = Vec::new();
        if self.rounds == 0 {
            return entries;
        }
        self.rounds -= 1;
        let ghost v = old(self)@;
        let n: usize = self.streams.len();
        let mut i: usize = 0;
        while i < n
            invariant
                i <= n,
                n == self.streams@.len(),
                n == v.streams.len(),
                self.eos@ == v.eos,
                self.max_seq == v.max_seq,
                self.rounds == v.rounds - 1,
                forall|k: int|
                    0 <= k < i ==> #[trigger] self@.streams[k] == emitted(
                        v.streams[k],
                        v.eos,
                        v.max_seq,
                    ),
                forall|k: int|
                    i <= k < n ==> #[trigger] self@.streams[k] == v.streams[k],
                entries@ == active_entries(self@.streams, i as nat),
            decreases n - i,
        {
            let ghost before = self@.streams;
            assert(before[i as int] == v.streams[i as int]);
            let done: bool = self.streams[i].done;
            let next: u32 = self.streams[i].next;
            let pos: usize = self.streams[i].pos;
            if !done {
                if is_eos(&self.eos, next) || pos >= self.max_seq {
                    self.streams[i].done = true;
                } else {
                    self.streams[i].out.push(next);
                    entries.push(Entry { token: next, pos, seq: i });
                }
            }
            proof {
                let after = self@.streams;
                assert(after[i as int] == emitted(v.streams[i as int], v.eos, v.max_seq));
                assert(forall|k: int| 0 <= k < n && k != i ==> #[trigger] after[k] == before[k]);
                lemma_active_prefix(before, after, i as nat);
            }
            i += 1;
        }
        entries
    }

    /// Ends a round with the tokens that the model produced for the active
    /// streams, in order.
    pub fn stepped(&mut self, next: &Vec<u32>)
        requires
            next@.len() == active_count(old(self)@.streams, old(self)@.streams.len()),
            forall|i: int|
                0 <= i < old(self)@.streams.len() ==> !(#[trigger] old(self)@.streams[i]).done
                    ==> old(self)@.streams[i].pos < old(self)@.max_seq,
        ensures
            final(self)@.eos == old(self)@.eos,
            final(self)@.max_seq == old(self)@.max_seq,
            final(self)@.rounds == old(self)@.rounds,
            final(self)@.streams.len() == old(self)@.streams.len(),
            forall|i: int|
                0 <= i < old(self)@.streams.len() ==> #[trigger] final(self)@.streams[i]
                    == advanced(old(self)@.streams, next@, i),
    {
        let ghost v = old(self)@;
        let n: usize = self.streams.len();
        let total: usize = next.len();
        let mut i: usize = 0;
        let mut k: usize = 0;
        while i < n
            invariant
                i <= n,
                n == self.streams@.len(),
                n == v.streams.len(),
                v == old(self)@,
                total == next@.len(),
                self.eos == old(self).eos,
                self.max_seq == old(self).max_seq,
                self.rounds == old(self).rounds,
                k == active_count(v.streams, i as nat),
                next@.len() == active_count(v.streams, n as nat),
                forall|x: int|
                    0 <= x < n ==> !(#[trigger] v.streams[x]).done ==> v.streams[x].pos < v.max_seq,
                forall|x: int|
                    0 <= x < i ==> #[trigger] self@.streams[x] == advanced(v.streams, next@, x),
                forall|x: int| i <= x < n ==> #[trigger] self@.streams[x] == v.streams[x],
            decreases n - i,
        {
            let ghost before = self@.streams;
            assert(before[i as int] == v.streams[i as int]);
            if !self.streams[i].done {
                proof {
                    assert(!v.streams[i as int].done);
                    lemma_active_count(v.streams, (i + 1) as nat, n as nat);
                }
                self.streams[i].next = next[k];
                self.streams[i].pos += 1;
                k += 1;
            }
            proof {
                let after = self@.streams;
                assert(after[i as int] == advanced(v.streams, next@, i as int));
                assert(forall|x: int| 0 <= x < n && x != i ==> #[trigger] after[x] == before[x]);
            }
            i += 1;
        }
    }

    /// The tokens that stream `i` emitted.
    pub fn tokens(&self, i: usize) -> (out: &Vec<u32>)
        requires
            i < self@.streams.len(),
        ensures
            out@ == self@.streams[i as int].out,
    {
        &self.streams[i].out
    }
}

proof fn lemma_active_prefix(a: Seq<BatchStreamView>, b: Seq<BatchStreamView>, n: nat)
    requires
        n <= a.len(),
        n <= b.len(),
        forall|k: int| 0 <= k < n ==> #[trigger] a[k] == b[k],
    ensures
        active_entries(a, n) == active_entries(b, n),
    decreases n,
{
    if n > 0 {
        lemma_active_prefix(a, b, (n - 1) as nat);
    }
}

proof fn lemma_active_count(streams: Seq<BatchStreamView>, i: nat, n: nat)
    requires
        i <= n,
    ensures
        active_count(streams, i) <= active_count(streams, n),
    decreases n,
{
    if i < n {
        lemma_active_count(streams, i, (n - 1) as nat);
    }
}

/// The entries of a round are as many as the streams that go on, each on the
/// sequence slot of its stream and at a position of the context.
pub proof fn law_round_entries(streams: Seq<BatchStreamView>, max_seq: nat, n: nat, k: int)
    requires
        n <= streams.len() <= usize::MAX,
        max_seq <= usize::MAX,
        forall|i: int|
            0 <= i < n ==> !(#[trigger] streams[i]).done ==> streams[i].pos < max_seq,
        0 <= k < active_entries(streams, n).len(),
    ensures
        active_entries(streams, n).len() == active_count(streams, n),
        ({
            let e = active_entries(streams, n)[k];
            &&& e.seq < n
            &&& !streams[e.seq as int].done
            &&& e.token == streams[e.seq as int].next
            &&& e.pos == streams[e.seq as int].pos
            &&& e.pos < max_seq
        }),
    decreases n,
{
    lemma_active_len(streams, n);
    let before = active_entries(streams, (n - 1) as nat);
    if k < before.len() {
        law_round_entries(streams, max_seq, (n - 1) as nat, k);
    }
}

proof fn lemma_active_len(streams: Seq<BatchStreamView>, n: nat)
    ensures
        active_entries(streams, n).len() == active_count(streams, n),
    decreases n,
{
    if n > 0 {
        lemma_active_len(streams, (n - 1) as nat);
    }
}

} // verus!
