//! Pager counters.

use crate::text::{decimal, push_decimal};
use vstd::prelude::*;
use vstd::string::*;

verus! {

/// Buckets of the fetch wall-time histogram.
pub const BUCKETS: usize = 7;

/// The bucket of a fetch that took `nanos` nanoseconds: <1, <2, <5, <10, <20,
/// <50, >=50 ms.
pub open spec fn bucket_of(nanos: nat) -> nat {
    if nanos < 1_000_000 {
        0
    } else if nanos < 2_000_000 {
        1
    } else if nanos < 5_000_000 {
        2
    } else if nanos < 10_000_000 {
        3
    } else if nanos < 20_000_000 {
        4
    } else if nanos < 50_000_000 {
        5
    } else {
        6
    }
}

fn bucket(nanos: u64) -> (b: usize)
    ensures
        b == bucket_of(nanos as nat),
        b < BUCKETS,
{
    if nanos < 1_000_000 {
        0
    } else if nanos < 2_000_000 {
        1
    } else if nanos < 5_000_000 {
        2
    } else if nanos < 10_000_000 {
        3
    } else if nanos < 20_000_000 {
        4
    } else if nanos < 50_000_000 {
        5
    } else {
        6
    }
}

/// `n + k`, around the top.
pub open spec fn bumped(n: u64, k: u64) -> u64 {
    ((n + k) % 0x1_0000_0000_0000_0000) as u64
}

/// Counters of the fetches made so far.
#[derive(Debug)]
pub struct Counters {
    pub bytes_fetched: u64,
    pub fetches: u64,
    /// Fetch wall-time histogram: <1, <2, <5, <10, <20, <50, >=50 ms.
    pub latency_ms_buckets: [u64; 7],
    /// Per-(layer, expert) fetch counts, row-major — the profile that drives
    /// pre-warm.
    pub fetch_counts: Vec<u64>,
}

/// `after` counts one fetch more than `before`: of `len` bytes, for expert `at`,
/// that took `nanos` nanoseconds.
pub open spec fn counted(before: Counters, after: Counters, at: int, len: u64, nanos: u64) -> bool {
    let b = bucket_of(nanos as nat) as int;
    &&& after.bytes_fetched == bumped(before.bytes_fetched, len)
    &&& after.fetches == bumped(before.fetches, 1)
    &&& after.latency_ms_buckets@ == before.latency_ms_buckets@.update(
        b,
        bumped(before.latency_ms_buckets@[b], 1),
    )
    &&& after.fetch_counts@ == before.fetch_counts@.update(
        at,
        bumped(before.fetch_counts@[at], 1),
    )
}

impl Counters {
    /// No fetch yet, of `experts` experts.
    pub fn new(experts: usize) -> (c: Self)
        ensures
            c.bytes_fetched == 0,
            c.fetches == 0,
            c.latency_ms_buckets@ == Seq::new(7, |i: int| 0u64),
            c.fetch_counts@ == Seq::new(experts as nat, |i: int| 0u64),
    {
        let mut fetch_counts: Vec<u64> = Vec::new();
        let mut i: usize = 0;
        while i < experts
            invariant
                i <= experts,
                fetch_counts@ == Seq::new(i as nat, |k: int| 0u64),
            decreases experts - i,
        {
            fetch_counts.push(0);
            i += 1;
            assert(fetch_counts@ =~= Seq::new(i as nat, |k: int| 0u64));
        }
        let c = Counters {
            bytes_fetched: 0,
            fetches: 0,
            latency_ms_buckets: [0, 0, 0, 0, 0, 0, 0],
            fetch_counts,
        };
        assert(c.latency_ms_buckets@ =~= Seq::new(7, |i: int| 0u64));
        c
    }

    /// Counts a fetch of `len` bytes for expert `at` that took `nanos`
    /// nanoseconds.
    pub fn record(&mut self, at: usize, len: u64, nanos: u64)
        requires
            at < old(self).fetch_counts@.len(),
        ensures
            counted(*old(self), *final(self), at as int, len, nanos),
    {
        let b: usize = bucket(nanos);
        self.bytes_fetched = self.bytes_fetched.wrapping_add(len);
        self.fetches = self.fetches.wrapping_add(1);
        let n: u64 = self.latency_ms_buckets[b];
        self.latency_ms_buckets[b] = n.wrapping_add(1);
        let c: u64 = self.fetch_counts[at];
        self.fetch_counts.set(at, c.wrapping_add(1));
    }
}

#[derive(Debug, Clone)]
pub struct Metrics {
    pub hits: u64,
    pub misses: u64,
    pub bytes_fetched: u64,
    pub fetches: u64,
    /// Fetches served from the host-RAM tier (subset of `fetches`).
    pub ram_hits: u64,
    /// Fetch wall-time histogram: <1, <2, <5, <10, <20, <50, >=50 ms.
    pub latency_ms_buckets: [u64; 7],
}

/// The label of a bucket.
pub open spec fn label(i: int) -> Seq<char> {
    if i == 0 {
        "<1ms"@
    } else if i == 1 {
        "<2ms"@
    } else if i == 2 {
        "<5ms"@
    } else if i == 3 {
        "<10ms"@
    } else if i == 4 {
        "<20ms"@
    } else if i == 5 {
        "<50ms"@
    } else {
        ">=50ms"@
    }
}

/// The first `n` buckets in words: label and count of each, with spaces in
/// between.
pub open spec fn histogram_text(buckets: Seq<u64>, n: nat) -> Seq<char>
    decreases n,
{
    if n == 0 {
        Seq::empty()
    } else if n == 1 {
        label(0) + ":"@ + decimal(buckets[0] as nat)
    } else {
        histogram_text(buckets, (n - 1) as nat) + " "@ + label(n - 1) + ":"@ + decimal(
            buckets[n - 1] as nat,
        )
    }
}

impl Metrics {
    pub fn histogram(&self) -> (s: String)
        ensures
            s@ == histogram_text(self.latency_ms_buckets@, 7),
    {
        let labels: [&str; 7] = ["<1ms", "<2ms", "<5ms", "<10ms", "<20ms", "<50ms", ">=50ms"];
        let mut s: String = String::new();
        let mut i: usize = 0;
        while i < 7
            invariant
                i <= 7,
                forall|k: int| 0 <= k < 7 ==> (#[trigger] labels@[k])@ == label(k),
                s@ == histogram_text(self.latency_ms_buckets@, i as nat),
            decreases 7 - i,
        {
            let ghost before = s@;
            if i > 0 {
                s.append(" ");
            }
            s.append(labels[i]);
            s.append(":");
            push_decimal(&mut s, self.latency_ms_buckets[i]);
            i += 1;
            assert(s@ =~= histogram_text(self.latency_ms_buckets@, i as nat));
        }
        s
    }
}

} // verus!
