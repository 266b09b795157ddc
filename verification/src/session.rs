//! The session engine's state: the two independent accumulators — the
//! session-wide window and the current auto-save interval window — and the
//! decisions the probing loop takes each tick.
//!
//! The engine owns the counters and sample lists. Each tick increments
//! `sent` in both windows; a successful reply appends its latency to both
//! sample lists; a timeout or transport error appends nothing. An interval
//! flush snapshots and resets the interval window only; finalization and
//! interruption snapshot the session window.

use vstd::prelude::*;
use crate::stats::PingStats;

verus! {

/// The mutable state of one probing session.
pub struct Session {
    /// Resolved textual address of the probed host.
    pub target: String,
    /// Probes issued over the whole session. Never reset.
    pub sent: u64,
    /// Latencies (centi-ms) of every reply over the whole session. Never reset.
    pub samples: Vec<u64>,
    /// Probes issued in the current auto-save interval. Reset by a flush.
    pub interval_sent: u64,
    /// Latencies of the replies in the current interval. Reset by a flush.
    pub interval_samples: Vec<u64>,
}

impl Session {
    /// Consistency of the two windows: neither holds more samples than it
    /// issued probes, and the interval window never outruns the session.
    pub open spec fn wf(&self) -> bool {
        &&& self.samples@.len() <= self.sent
        &&& self.interval_samples@.len() <= self.interval_sent
        &&& self.interval_sent <= self.sent
    }

    /// A fresh session on `target`: both windows empty.
    pub fn new(target: String) -> (r: Session)
        ensures
            r.target == target,
            r.sent == 0,
            r.samples@ =~= Seq::<u64>::empty(),
            r.interval_sent == 0,
            r.interval_samples@ =~= Seq::<u64>::empty(),
            r.wf(),
    {
        Session {
            target,
            sent: 0,
            samples: Vec::new(),
            interval_sent: 0,
            interval_samples: Vec::new(),
        }
    }

    /// One probe was issued: count it toward both the session and the
    /// current interval, before its outcome is known.
    pub fn record_sent(&mut self)
        requires
            old(self).wf(),
            old(self).sent < u64::MAX,
        ensures
            final(self).wf(),
            final(self).target == old(self).target,
            final(self).sent == old(self).sent + 1,
            final(self).interval_sent == old(self).interval_sent + 1,
            final(self).samples == old(self).samples,
            final(self).interval_samples == old(self).interval_samples,
    {
        self.sent = self.sent + 1;
        self.interval_sent = self.interval_sent + 1;
    }

    /// A reply came back in `centi_ms`: append the latency to both sample
    /// lists. A reply presupposes an issued probe that no earlier reply
    /// answered, in both windows.
    pub fn record_reply(&mut self, centi_ms: u64)
        requires
            old(self).wf(),
            old(self).samples@.len() < old(self).sent,
            old(self).interval_samples@.len() < old(self).interval_sent,
        ensures
            final(self).wf(),
            final(self).target == old(self).target,
            final(self).sent == old(self).sent,
            final(self).interval_sent == old(self).interval_sent,
            final(self).samples@ =~= old(self).samples@.push(centi_ms),
            final(self).interval_samples@ =~= old(self).interval_samples@.push(centi_ms),
    {
        self.samples.push(centi_ms);
        self.interval_samples.push(centi_ms);
    }

    /// Snapshot the current interval window and reset it: the returned
    /// record reflects the interval's probes and samples, and afterwards
    /// the interval sample list and `sent` counter are empty and zero
    /// while the session-wide counters are untouched.
    pub fn flush_interval(&mut self) -> (snap: PingStats)
        requires
            old(self).wf(),
        ensures
            final(self).wf(),
            final(self).target == old(self).target,
            final(self).sent == old(self).sent,
            final(self).samples == old(self).samples,
            final(self).interval_sent == 0,
            final(self).interval_samples@ =~= Seq::<u64>::empty(),
            snap.wf(),
            snap.target == old(self).target,
            snap.reflects(old(self).interval_sent, old(self).interval_samples@),
    {
        let mut snap = PingStats::new(self.target.clone());
        snap.recompute(self.interval_sent, &self.interval_samples);
        self.interval_samples.clear();
        self.interval_sent = 0;
        snap
    }

    /// Snapshot the whole session so far: one record reflecting every
    /// probe issued and every sample collected since the session began.
    /// The session state is read, not changed.
    pub fn session_snapshot(&self) -> (snap: PingStats)
        requires
            self.wf(),
        ensures
            snap.wf(),
            snap.target == self.target,
            snap.reflects(self.sent, self.samples@),
    {
        let mut snap = PingStats::new(self.target.clone());
        snap.recompute(self.sent, &self.samples);
        snap
    }
}

/// Whether another probe is owed: always, when no bounded count was
/// configured; otherwise, until `sent` reaches the bound.
pub fn more_probes(sent: u64, count: Option<u64>) -> (r: bool)
    ensures
        r == match count {
            Option::None => true,
            Option::Some(c) => sent < c,
        },
{
    match count {
        Option::None => true,
        Option::Some(c) => sent < c,
    }
}

/// Whether an interval flush is due: an auto-save period is configured
/// and at least that much wall-clock time has elapsed since the last
/// flush.
pub fn due_for_flush(elapsed_ms: u64, save_interval_ms: Option<u64>) -> (r: bool)
    ensures
        r == match save_interval_ms {
            Option::None => false,
            Option::Some(p) => elapsed_ms >= p,
        },
{
    match save_interval_ms {
        Option::None => false,
        Option::Some(p) => elapsed_ms >= p,
    }
}

/// Whether the finalization path persists a snapshot: only when at least
/// one probe was ever sent.
pub fn should_persist_final(sent: u64) -> (r: bool)
    ensures
        r == (sent > 0),
{
    sent > 0
}

} // verus!
