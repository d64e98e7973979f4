//! What the counters of the pager mean.

use crate::metrics::{bucket_of, bumped, counted, histogram_text, label, Counters};
use crate::text::{decimal, digit_char};
use vstd::prelude::*;
use vstd::string::*;

verus! {

/// The time that fetches of bucket `i` stay below, in milliseconds; the last
/// bucket has no such bound.
pub open spec fn below_ms(i: int) -> nat {
    if i == 0 {
        1
    } else if i == 1 {
        2
    } else if i == 2 {
        5
    } else if i == 3 {
        10
    } else if i == 4 {
        20
    } else {
        50
    }
}

/// A fetch is counted where its time is: below the bound of its bucket, and
/// not below that of the one before. A longer one never is in a lower bucket.
pub proof fn law_fetches_are_counted_by_their_time(a: nat, b: nat)
    requires
        a <= b,
    ensures
        bucket_of(a) <= bucket_of(b) <= 6,
        bucket_of(a) < 6 ==> a < below_ms(bucket_of(a) as int) * 1_000_000,
        bucket_of(a) > 0 ==> a >= below_ms(bucket_of(a) - 1) * 1_000_000,
{
}

/// A bucket's label says its bound.
pub proof fn law_labels_say_the_bounds(i: int)
    requires
        0 <= i < 6,
    ensures
        label(i) == "<"@ + decimal(below_ms(i)) + "ms"@,
        label(6) == ">="@ + decimal(below_ms(5)) + "ms"@,
{
    reveal_with_fuel(decimal, 3);
    reveal_strlit("<");
    reveal_strlit(">=");
    reveal_strlit("ms");
    reveal_strlit("<1ms");
    reveal_strlit("<2ms");
    reveal_strlit("<5ms");
    reveal_strlit("<10ms");
    reveal_strlit("<20ms");
    reveal_strlit("<50ms");
    reveal_strlit(">=50ms");
    assert(digit_char(0) == '0' && digit_char(1) == '1' && digit_char(2) == '2' && digit_char(5)
        == '5');
    assert(label(i) =~= "<"@ + decimal(below_ms(i)) + "ms"@);
    assert(label(6) =~= ">="@ + decimal(below_ms(5)) + "ms"@);
}

/// A histogram has a word for each bucket, in order: its label, a colon and its
/// count.
pub proof fn law_histogram_has_every_bucket(buckets: Seq<u64>, n: nat)
    requires
        0 < n < buckets.len(),
    ensures
        histogram_text(buckets, 1) == label(0) + ":"@ + decimal(buckets[0] as nat),
        histogram_text(buckets, n + 1)
            == histogram_text(buckets, n) + (" "@ + label(n as int) + ":"@
            + decimal(buckets[n as int] as nat)),
{
    assert(histogram_text(buckets, n + 1) =~= histogram_text(buckets, n) + (" "@ + label(n as int)
        + ":"@ + decimal(buckets[n as int] as nat)));
}

/// A fetch counts once everywhere: its bytes, itself, in one bucket and for one
/// expert, and for no other.
pub proof fn law_fetches_count_once(
    before: Counters,
    after: Counters,
    at: int,
    len: u64,
    nanos: u64,
    i: int,
    e: int,
)
    requires
        counted(before, after, at, len, nanos),
        0 <= at < before.fetch_counts@.len(),
        0 <= i < 7,
        0 <= e < before.fetch_counts@.len(),
    ensures
        before.bytes_fetched + len <= u64::MAX
            ==> after.bytes_fetched == before.bytes_fetched + len,
        before.fetches < u64::MAX ==> after.fetches == before.fetches + 1,
        before.fetch_counts@[at] < u64::MAX ==> after.fetch_counts@[at] == before.fetch_counts@[at]
            + 1,
        e != at ==> after.fetch_counts@[e] == before.fetch_counts@[e],
        before.latency_ms_buckets@[i] < u64::MAX ==> after.latency_ms_buckets@[i]
            == before.latency_ms_buckets@[i] + (if (i == 6 || nanos < below_ms(i) * 1_000_000) && (i
            == 0 || nanos >= below_ms(i - 1) * 1_000_000) {
            1int
        } else {
            0
        }),
{
}

/// Counters add up as long as they have room.
pub proof fn law_counters_add_up(n: u64, k: u64)
    requires
        n + k <= u64::MAX,
    ensures
        bumped(n, k) == n + k,
{
}

} // verus!
