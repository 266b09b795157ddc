//! Latency histogram: a fixed ordered set of named latency-range buckets
//! covering `[0, oo)` milliseconds with no gaps and no overlap.
//!
//! A latency sample is a round-trip time in hundredths of a millisecond
//! (centi-ms). Classification looks at the whole milliseconds of the
//! sample: ten 50 ms wide buckets up to 500 ms, one bucket for
//! 500..=999 ms, and an open-ended bucket for 1000 ms and above.

use vstd::prelude::*;

verus! {

/// Number of latency buckets.
pub const BUCKET_COUNT: usize = 12;

/// The bucket a latency sample (in centi-ms) falls into, as an index in
/// `0 .. BUCKET_COUNT`. Total over all `u64` values: every sample lands in
/// exactly one bucket.
pub open spec fn bucket_index(centi_ms: u64) -> int {
    let ms = centi_ms / 100;
    if ms < 500 {
        (ms / 50) as int
    } else if ms < 1000 {
        10
    } else {
        11
    }
}

/// The display name of each bucket, in the fixed declared order.
pub open spec fn bucket_label(b: int) -> Seq<char> {
    if b == 0 {
        "0-50ms"@
    } else if b == 1 {
        "50-100ms"@
    } else if b == 2 {
        "100-150ms"@
    } else if b == 3 {
        "150-200ms"@
    } else if b == 4 {
        "200-250ms"@
    } else if b == 5 {
        "250-300ms"@
    } else if b == 6 {
        "300-350ms"@
    } else if b == 7 {
        "350-400ms"@
    } else if b == 8 {
        "400-450ms"@
    } else if b == 9 {
        "450-500ms"@
    } else if b == 10 {
        "500-999ms"@
    } else {
        ">1000ms"@
    }
}

/// How many samples of `samples` fall into bucket `b`.
pub open spec fn bucket_count(samples: Seq<u64>, b: int) -> nat
    decreases samples.len(),
{
    if samples.len() == 0 {
        0
    } else {
        bucket_count(samples.drop_last(), b) + if bucket_index(samples.last()) == b {
            1nat
        } else {
            0nat
        }
    }
}

/// The sum of all twelve bucket counts.
pub open spec fn total_bucket_count(samples: Seq<u64>) -> nat {
    bucket_count(samples, 0) + bucket_count(samples, 1) + bucket_count(samples, 2)
        + bucket_count(samples, 3) + bucket_count(samples, 4) + bucket_count(samples, 5)
        + bucket_count(samples, 6) + bucket_count(samples, 7) + bucket_count(samples, 8)
        + bucket_count(samples, 9) + bucket_count(samples, 10) + bucket_count(samples, 11)
}

/// No bucket holds more samples than there are.
pub proof fn lemma_bucket_count_le_len(samples: Seq<u64>, b: int)
    ensures
        bucket_count(samples, b) <= samples.len(),
    decreases samples.len(),
{
    if samples.len() > 0 {
        lemma_bucket_count_le_len(samples.drop_last(), b);
    }
}

/// Law: classification is a partition. The bucket counts over any sample
/// sequence sum to the number of samples — each sample is counted in
/// exactly one bucket.
pub proof fn lemma_bucket_counts_sum(samples: Seq<u64>)
    ensures
        total_bucket_count(samples) == samples.len(),
    decreases samples.len(),
{
    if samples.len() > 0 {
        lemma_bucket_counts_sum(samples.drop_last());
        assert(0 <= bucket_index(samples.last()) < 12);
    }
}

/// Law: classification is deterministic. Reclassifying the same latency
/// value always yields the same bucket.
pub proof fn lemma_classify_idempotent(a: u64, b: u64)
    requires
        a == b,
    ensures
        bucket_index(a) == bucket_index(b),
{
}

/// Classify one latency sample (centi-ms) into its bucket index.
pub fn classify(centi_ms: u64) -> (idx: usize)
    ensures
        idx == bucket_index(centi_ms),
        idx < BUCKET_COUNT,
{
    let ms = centi_ms / 100;
    if ms < 500 {
        (ms / 50) as usize
    } else if ms < 1000 {
        10
    } else {
        11
    }
}

/// The display name of a bucket index.
pub fn classify_label(idx: usize) -> (r: &'static str)
    requires
        idx < BUCKET_COUNT,
    ensures
        r@ == bucket_label(idx as int),
{
    if idx == 0 {
        "0-50ms"
    } else if idx == 1 {
        "50-100ms"
    } else if idx == 2 {
        "100-150ms"
    } else if idx == 3 {
        "150-200ms"
    } else if idx == 4 {
        "200-250ms"
    } else if idx == 5 {
        "250-300ms"
    } else if idx == 6 {
        "300-350ms"
    } else if idx == 7 {
        "350-400ms"
    } else if idx == 8 {
        "400-450ms"
    } else if idx == 9 {
        "450-500ms"
    } else if idx == 10 {
        "500-999ms"
    } else {
        ">1000ms"
    }
}

/// Reset every bucket to zero, then classify and count each sample:
/// the full histogram of `samples`, in the fixed bucket order.
pub fn rebuild(samples: &Vec<u64>) -> (counts: Vec<u64>)
    ensures
        counts@.len() == BUCKET_COUNT,
        forall|b: int| 0 <= b < BUCKET_COUNT ==> counts@[b] == bucket_count(samples@, b),
{
    let mut counts: Vec<u64> = Vec::new();
    let mut j: usize = 0;
    while j < BUCKET_COUNT
        invariant
            j <= BUCKET_COUNT,
            counts@.len() == j,
            forall|b: int| 0 <= b < j ==> counts@[b] == 0,
        decreases BUCKET_COUNT - j,
    {
        counts.push(0);
        j += 1;
    }
    let mut i: usize = 0;
    while i < samples.len()
        invariant
            i <= samples@.len(),
            counts@.len() == BUCKET_COUNT,
            forall|b: int| 0 <= b < BUCKET_COUNT ==> counts@[b] == bucket_count(
                samples@.take(i as int),
                b,
            ),
        decreases samples@.len() - i,
    {
        let idx = classify(samples[i]);
        proof {
            lemma_bucket_count_le_len(samples@.take(i as int), bucket_index(samples@[i as int]));
            assert(samples@.take(i as int).len() <= samples@.len());
            assert(samples@.take(i + 1).drop_last() =~= samples@.take(i as int));
            assert(samples@.take(i + 1).last() == samples@[i as int]);
            assert(forall|b: int|
                0 <= b < BUCKET_COUNT && b != bucket_index(samples@[i as int])
                    ==> bucket_count(samples@.take(i + 1), b) == bucket_count(
                    samples@.take(i as int),
                    b,
                ));
        }
        let c = counts[idx];
        counts.set(idx, c + 1);
        i += 1;
    }
    proof {
        assert(samples@.take(samples@.len() as int) =~= samples@);
    }
    counts
}

} // verus!
