//! The aggregate statistics record for one reporting window: counts of
//! probes sent and replies received, the derived loss percentage, the
//! latency extremes and average, and a histogram snapshot.
//!
//! All latency figures are in hundredths of a millisecond (centi-ms); the
//! loss rate is in hundredths of a percent. Both match the two-decimal
//! precision of the persisted records.

use vstd::prelude::*;
use vstd::arithmetic::div_mod::lemma_fundamental_div_mod;
use crate::histogram::BUCKET_COUNT;
use crate::histogram::bucket_count;
use crate::histogram::rebuild;
use crate::histogram::lemma_bucket_counts_sum;
use crate::clock::TIMESTAMP_LIMIT_MS;
use crate::clock::now_millis_clamped;

verus! {

/// The sum of a latency sample sequence.
pub open spec fn sum_centi(s: Seq<u64>) -> int
    decreases s.len(),
{
    if s.len() == 0 {
        0
    } else {
        sum_centi(s.drop_last()) + s.last()
    }
}

/// The least sample of a nonempty sequence.
pub open spec fn seq_min(s: Seq<u64>) -> u64
    recommends
        s.len() > 0,
    decreases s.len(),
{
    if s.len() <= 1 {
        s[0]
    } else {
        let m = seq_min(s.drop_last());
        if s.last() < m {
            s.last()
        } else {
            m
        }
    }
}

/// The greatest sample of a nonempty sequence.
pub open spec fn seq_max(s: Seq<u64>) -> u64
    recommends
        s.len() > 0,
    decreases s.len(),
{
    if s.len() <= 1 {
        s[0]
    } else {
        let m = seq_max(s.drop_last());
        if s.last() > m {
            s.last()
        } else {
            m
        }
    }
}

/// The loss rate in hundredths of a percent: `100 * (sent - received) / sent`
/// rounded to the nearest hundredth (half away from zero) when `sent > 0`,
/// and defined as `0` when `sent == 0` (no data, not an error).
pub open spec fn loss_centi_percent_of(sent: u64, received: u64) -> int
    recommends
        received <= sent,
{
    if sent == 0 {
        0
    } else {
        (20000 * (sent - received) + sent) / (2 * sent)
    }
}

/// The average of a nonempty sample sequence, rounded to the nearest
/// centi-ms (half up).
pub open spec fn avg_centi_of(s: Seq<u64>) -> int
    recommends
        s.len() > 0,
{
    let n = s.len() as int;
    let q = sum_centi(s) / n;
    let r = sum_centi(s) % n;
    q + if 2 * r >= n {
        1int
    } else {
        0int
    }
}

/// The sum of the twelve bucket counters of a histogram snapshot.
pub open spec fn counts_total(c: Seq<u64>) -> int
    recommends
        c.len() == BUCKET_COUNT,
{
    c[0] + c[1] + c[2] + c[3] + c[4] + c[5] + c[6] + c[7] + c[8] + c[9] + c[10] + c[11]
}

pub proof fn lemma_sum_centi_bounds(s: Seq<u64>)
    ensures
        0 <= sum_centi(s) <= s.len() * (u64::MAX as int),
    decreases s.len(),
{
    if s.len() > 0 {
        lemma_sum_centi_bounds(s.drop_last());
        assert((s.len() - 1) * (u64::MAX as int) + (u64::MAX as int) == s.len() * (
        u64::MAX as int)) by (nonlinear_arith);
    }
}

/// The rounded average of a nonempty sequence of `u64` samples fits in a
/// `u64`, and the rounding step never pushes a maximal quotient over.
pub proof fn lemma_avg_centi_fits(s: Seq<u64>)
    requires
        s.len() > 0,
    ensures
        0 <= sum_centi(s) / (s.len() as int) <= u64::MAX,
        sum_centi(s) / (s.len() as int) == u64::MAX ==> sum_centi(s) % (s.len() as int) == 0,
        0 <= avg_centi_of(s) <= u64::MAX,
{
    let n = s.len() as int;
    let sm = sum_centi(s);
    lemma_sum_centi_bounds(s);
    lemma_fundamental_div_mod(sm, n);
    let q = sm / n;
    let r = sm % n;
    assert(0 <= q <= u64::MAX && (q == u64::MAX ==> r == 0)) by (nonlinear_arith)
        requires
            sm == n * q + r,
            0 <= r < n,
            0 <= sm <= n * (u64::MAX as int),
            1 <= n,
    ;
}

/// The loss rate is always between zero and one hundred percent.
pub proof fn lemma_loss_centi_bounds(sent: u64, received: u64)
    requires
        received <= sent,
    ensures
        0 <= loss_centi_percent_of(sent, received) <= 10000,
{
    if sent > 0 {
        let s = sent as int;
        let x = 20000 * (s - received) + s;
        lemma_fundamental_div_mod(x, 2 * s);
        let q = x / (2 * s);
        let r = x % (2 * s);
        assert(0 <= q <= 10000) by (nonlinear_arith)
            requires
                x == 2 * s * q + r,
                0 <= r < 2 * s,
                s <= x <= 20001 * s,
                1 <= s,
        ;
    }
}

/// Law: for `sent > 0` and `0 <= received <= sent`, the stored loss rate
/// is the exact ratio `100 * (sent - received) / sent`, expressed in
/// hundredths of a percent and rounded to the nearest unit: it differs
/// from `10000 * (sent - received) / sent` by at most half a unit.
pub proof fn lemma_loss_percent_rounds(sent: u64, received: u64)
    requires
        0 < sent,
        received <= sent,
    ensures
        2 * sent * loss_centi_percent_of(sent, received) - sent <= 20000 * (sent - received),
        20000 * (sent - received) < 2 * sent * loss_centi_percent_of(sent, received) + sent,
{
    let s = sent as int;
    let x = 20000 * (s - received) + s;
    lemma_fundamental_div_mod(x, 2 * s);
    let q = x / (2 * s);
    let r = x % (2 * s);
    assert(2 * s * q - s <= 20000 * (s - received) && 20000 * (s - received) < 2 * s * q + s)
        by (nonlinear_arith)
        requires
            x == 2 * s * q + r,
            0 <= r < 2 * s,
            x == 20000 * (s - received) + s,
            1 <= s,
    ;
}

/// The persisted content of a snapshot: every field the encodings carry,
/// except the timestamp (whose written form chrono owns).
#[verifier::ext_equal]
pub ghost struct SnapModel {
    pub target: Seq<char>,
    pub sent: u64,
    pub received: u64,
    pub loss_centi_percent: u64,
    pub min_centi_ms: Option<u64>,
    pub max_centi_ms: Option<u64>,
    pub avg_centi_ms: Option<u64>,
    pub buckets: Seq<u64>,
}

impl SnapModel {
    /// Internal consistency of a persisted snapshot, as far as the
    /// encodings carry it.
    pub open spec fn wf(self) -> bool {
        &&& self.received <= self.sent
        &&& self.buckets.len() == BUCKET_COUNT
        &&& counts_total(self.buckets) == self.received
        &&& (self.min_centi_ms is Some <==> self.received > 0)
        &&& (self.max_centi_ms is Some <==> self.received > 0)
        &&& (self.avg_centi_ms is Some <==> self.received > 0)
        &&& self.loss_centi_percent <= 10000
    }
}

/// The statistics of one reporting window (the whole session so far, or
/// one auto-save interval).
#[derive(Clone, Debug)]
pub struct PingStats {
    /// Resolved textual address of the probed host.
    pub target: String,
    /// When the statistics were last recomputed, in milliseconds since
    /// the Unix epoch.
    pub timestamp_ms: i64,
    /// Probes issued in this window.
    pub sent: u64,
    /// Successful replies: the number of latency samples included.
    pub received: u64,
    /// Loss rate in hundredths of a percent (`0 ..= 10000`).
    pub loss_centi_percent: u64,
    /// Least latency sample, in centi-ms; absent when nothing was received.
    pub min_centi_ms: Option<u64>,
    /// Greatest latency sample, in centi-ms; absent when nothing was received.
    pub max_centi_ms: Option<u64>,
    /// Rounded mean latency, in centi-ms; absent when nothing was received.
    pub avg_centi_ms: Option<u64>,
    /// Histogram snapshot: one counter per bucket, in the fixed bucket order.
    pub latency_buckets: Vec<u64>,
}

impl PingStats {
    /// The record's persisted content.
    pub open spec fn model(&self) -> SnapModel {
        SnapModel {
            target: self.target@,
            sent: self.sent,
            received: self.received,
            loss_centi_percent: self.loss_centi_percent,
            min_centi_ms: self.min_centi_ms,
            max_centi_ms: self.max_centi_ms,
            avg_centi_ms: self.avg_centi_ms,
            buckets: self.latency_buckets@,
        }
    }

    /// Internal consistency of a statistics record: replies never exceed
    /// probes, the histogram holds one counter per bucket and its counts
    /// sum to the replies, the extremes and average are absent exactly
    /// when nothing was received, and the loss rate is a percentage.
    pub open spec fn wf(&self) -> bool {
        &&& self.received <= self.sent
        &&& self.latency_buckets@.len() == BUCKET_COUNT
        &&& counts_total(self.latency_buckets@) == self.received
        &&& (self.min_centi_ms is Some <==> self.received > 0)
        &&& (self.max_centi_ms is Some <==> self.received > 0)
        &&& (self.avg_centi_ms is Some <==> self.received > 0)
        &&& self.loss_centi_percent <= 10000
        &&& -TIMESTAMP_LIMIT_MS <= self.timestamp_ms <= TIMESTAMP_LIMIT_MS
    }

    /// The record is exactly what recomputation over `sent` probes and the
    /// sample sequence `samples` yields: every derived field is a pure
    /// function of those two inputs.
    pub open spec fn reflects(&self, sent: u64, samples: Seq<u64>) -> bool {
        &&& self.sent == sent
        &&& self.received == samples.len()
        &&& self.loss_centi_percent == loss_centi_percent_of(sent, samples.len() as u64)
        &&& (samples.len() == 0 ==> self.min_centi_ms is None && self.max_centi_ms is None
            && self.avg_centi_ms is None)
        &&& (samples.len() > 0 ==> {
            &&& self.min_centi_ms == Some(seq_min(samples))
            &&& self.max_centi_ms == Some(seq_max(samples))
            &&& self.avg_centi_ms == Some(avg_centi_of(samples) as u64)
        })
        &&& self.latency_buckets@.len() == BUCKET_COUNT
        &&& (forall|b: int|
            0 <= b < BUCKET_COUNT ==> self.latency_buckets@[b] == bucket_count(samples, b))
    }

    /// A new, empty record for a window on `target`: nothing sent, nothing
    /// received, every bucket zero, no latency data.
    pub fn new(target: String) -> (r: PingStats)
        ensures
            r.target == target,
            r.wf(),
            r.reflects(0, Seq::<u64>::empty()),
    {
        let empty: Vec<u64> = Vec::new();
        let buckets = rebuild(&empty);
        let ts = now_millis_clamped();
        PingStats {
            target,
            timestamp_ms: ts,
            sent: 0,
            received: 0,
            loss_centi_percent: 0,
            min_centi_ms: None,
            max_centi_ms: None,
            avg_centi_ms: None,
            latency_buckets: buckets,
        }
    }

    /// Replace every derived field in one step from the window's `sent`
    /// counter and its full ordered sample sequence, and stamp the record
    /// with the moment of recomputation.
    ///
    /// An empty sample set yields absent min/max/avg and zero bucket
    /// counts whatever `sent` is; `sent == 0` yields a zero loss rate.
    pub fn recompute(&mut self, sent: u64, samples: &Vec<u64>)
        requires
            old(self).samples_fit(sent, samples@),
        ensures
            final(self).target == old(self).target,
            final(self).wf(),
            final(self).reflects(sent, samples@),
            sent == 0 ==> final(self).loss_centi_percent == 0,
    {
        let received = samples.len() as u64;
        self.sent = sent;
        self.received = received;
        self.timestamp_ms = now_millis_clamped();
        self.loss_centi_percent = compute_loss(sent, received);
        if samples.len() == 0 {
            self.min_centi_ms = None;
            self.max_centi_ms = None;
            self.avg_centi_ms = None;
        } else {
            self.min_centi_ms = Some(min_of(samples));
            self.max_centi_ms = Some(max_of(samples));
            self.avg_centi_ms = Some(avg_of(samples));
        }
        self.latency_buckets = rebuild(samples);
        proof {
            lemma_bucket_counts_sum(samples@);
        }
    }

    /// The samples of a window never outnumber its probes: the one
    /// demand recomputation makes of its inputs.
    pub open spec fn samples_fit(&self, sent: u64, samples: Seq<u64>) -> bool {
        samples.len() <= sent
    }

    /// The loss rate as two-decimal percent text.
    pub fn loss_percent_text(&self) -> (r: String)
        ensures
            r@ == crate::text::fixed2_digits(self.loss_centi_percent as int),
    {
        crate::text::fixed2_text(self.loss_centi_percent)
    }
}

/// The loss rate of `received` replies to `sent` probes, in hundredths of
/// a percent.
pub fn compute_loss(sent: u64, received: u64) -> (r: u64)
    requires
        received <= sent,
    ensures
        r == loss_centi_percent_of(sent, received),
        r <= 10000,
{
    proof {
        lemma_loss_centi_bounds(sent, received);
    }
    if sent == 0 {
        0
    } else {
        let d = (sent - received) as u128;
        let s = sent as u128;
        ((20000 * d + s) / (2 * s)) as u64
    }
}

/// The least sample of a nonempty sample list.
pub fn min_of(samples: &Vec<u64>) -> (r: u64)
    requires
        samples@.len() > 0,
    ensures
        r == seq_min(samples@),
{
    let mut m = samples[0];
    let mut i: usize = 1;
    while i < samples.len()
        invariant
            1 <= i <= samples@.len(),
            m == seq_min(samples@.take(i as int)),
        decreases samples@.len() - i,
    {
        proof {
            assert(samples@.take(i + 1).drop_last() =~= samples@.take(i as int));
        }
        let x = samples[i];
        if x < m {
            m = x;
        }
        i += 1;
    }
    proof {
        assert(samples@.take(samples@.len() as int) =~= samples@);
    }
    m
}

/// The greatest sample of a nonempty sample list.
pub fn max_of(samples: &Vec<u64>) -> (r: u64)
    requires
        samples@.len() > 0,
    ensures
        r == seq_max(samples@),
{
    let mut m = samples[0];
    let mut i: usize = 1;
    while i < samples.len()
        invariant
            1 <= i <= samples@.len(),
            m == seq_max(samples@.take(i as int)),
        decreases samples@.len() - i,
    {
        proof {
            assert(samples@.take(i + 1).drop_last() =~= samples@.take(i as int));
        }
        let x = samples[i];
        if x > m {
            m = x;
        }
        i += 1;
    }
    proof {
        assert(samples@.take(samples@.len() as int) =~= samples@);
    }
    m
}

/// The rounded mean of a nonempty sample list, in centi-ms.
pub fn avg_of(samples: &Vec<u64>) -> (r: u64)
    requires
        samples@.len() > 0,
    ensures
        r == avg_centi_of(samples@),
{
    let n = samples.len();
    let mut total: u128 = 0;
    let mut i: usize = 0;
    while i < n
        invariant
            i <= samples@.len(),
            n == samples@.len(),
            total == sum_centi(samples@.take(i as int)),
        decreases samples@.len() - i,
    {
        proof {
            lemma_sum_centi_bounds(samples@.take(i as int));
            assert(samples@.take(i + 1).drop_last() =~= samples@.take(i as int));
        }
        total = total + samples[i] as u128;
        i += 1;
    }
    proof {
        assert(samples@.take(samples@.len() as int) =~= samples@);
        lemma_avg_centi_fits(samples@);
    }
    let nn = n as u128;
    let q = total / nn;
    let r = total % nn;
    if 2 * r >= nn {
        q as u64 + 1
    } else {
        q as u64
    }
}

} // verus!
