//! Request metrics: counts of total, successful and failed requests, plus
//! cumulative, minimum and maximum observed latency. A ghost history of every
//! recorded latency ties each counter to exactly what was recorded.

use vstd::prelude::*;

verus! {

/// Sum of a sequence of latencies.
pub open spec fn seq_sum(s: Seq<u64>) -> int
    decreases s.len(),
{
    if s.len() == 0 {
        0
    } else {
        seq_sum(s.drop_last()) + s.last()
    }
}

/// Minimum of a sequence of latencies; the u64 maximum when none were
/// recorded (the "no data yet" sentinel).
pub open spec fn seq_min(s: Seq<u64>) -> int
    decreases s.len(),
{
    if s.len() == 0 {
        u64::MAX as int
    } else if s.last() < seq_min(s.drop_last()) {
        s.last() as int
    } else {
        seq_min(s.drop_last())
    }
}

/// Maximum of a sequence of latencies; zero when none were recorded.
pub open spec fn seq_max(s: Seq<u64>) -> int
    decreases s.len(),
{
    if s.len() == 0 {
        0
    } else if s.last() > seq_max(s.drop_last()) {
        s.last() as int
    } else {
        seq_max(s.drop_last())
    }
}

/// A point-in-time copy of the collected metrics. The average is reported in
/// whole microseconds (cumulative latency divided by the request count).
#[derive(Clone, Copy, Debug, PartialEq, Eq, Structural)]
pub struct MetricsSnapshot {
    pub total_requests: u64,
    pub successful_requests: u64,
    pub failed_requests: u64,
    pub avg_latency_micros: u64,
    pub min_latency_micros: u64,
    pub max_latency_micros: u64,
}

/// Collects request outcomes and latencies.
pub struct MetricsCollector {
    total_requests: u64,
    successful_requests: u64,
    failed_requests: u64,
    total_latency_micros: u64,
    min_latency_micros: u64,
    max_latency_micros: u64,
    history: Ghost<Seq<u64>>,
}

impl MetricsCollector {
    /// Every latency recorded so far, in order.
    pub closed spec fn history(&self) -> Seq<u64> {
        self.history@
    }

    pub closed spec fn total(&self) -> u64 {
        self.total_requests
    }

    pub closed spec fn successful(&self) -> u64 {
        self.successful_requests
    }

    pub closed spec fn failed(&self) -> u64 {
        self.failed_requests
    }

    pub closed spec fn cumulative_latency(&self) -> u64 {
        self.total_latency_micros
    }

    pub closed spec fn min_latency(&self) -> u64 {
        self.min_latency_micros
    }

    pub closed spec fn max_latency(&self) -> u64 {
        self.max_latency_micros
    }

    /// The counters agree with the recorded history: the total counts the
    /// records, success and failure counts partition it, and the cumulative,
    /// minimum and maximum latencies are those of the history.
    pub open spec fn wf(&self) -> bool {
        &&& self.total() == self.history().len()
        &&& self.successful() + self.failed() == self.total()
        &&& self.cumulative_latency() == seq_sum(self.history())
        &&& self.min_latency() == seq_min(self.history())
        &&& self.max_latency() == seq_max(self.history())
    }

    pub fn new() -> (collector: Self)
        ensures
            collector.wf(),
            collector.history() == Seq::<u64>::empty(),
            collector.total() == 0,
            collector.successful() == 0,
            collector.failed() == 0,
            collector.min_latency() == u64::MAX,
            collector.max_latency() == 0,
    {
        let collector = Self {
            total_requests: 0,
            successful_requests: 0,
            failed_requests: 0,
            total_latency_micros: 0,
            min_latency_micros: u64::MAX,
            max_latency_micros: 0,
            history: Ghost(Seq::empty()),
        };
        proof {
            assert(collector.history() =~= Seq::<u64>::empty());
        }
        collector
    }

    /// Record one request: bump the total and the success or failure count,
    /// add the latency to the cumulative sum, and lower or raise the running
    /// minimum and maximum as needed.
    pub fn record_request(&mut self, latency_micros: u64, success: bool)
        requires
            old(self).wf(),
            old(self).total() < u64::MAX,
            old(self).cumulative_latency() + latency_micros <= u64::MAX,
        ensures
            final(self).wf(),
            final(self).history() == old(self).history().push(latency_micros),
            final(self).total() == old(self).total() + 1,
            final(self).successful() == old(self).successful() + (if success {
                1int
            } else {
                0int
            }),
            final(self).failed() == old(self).failed() + (if success {
                0int
            } else {
                1int
            }),
            final(self).cumulative_latency() == old(self).cumulative_latency() + latency_micros,
            final(self).min_latency() == (if latency_micros < old(self).min_latency() {
                latency_micros as int
            } else {
                old(self).min_latency() as int
            }),
            final(self).max_latency() == (if latency_micros > old(self).max_latency() {
                latency_micros as int
            } else {
                old(self).max_latency() as int
            }),
    {
        self.total_requests = self.total_requests + 1;
        self.total_latency_micros = self.total_latency_micros + latency_micros;
        if success {
            self.successful_requests = self.successful_requests + 1;
        } else {
            self.failed_requests = self.failed_requests + 1;
        }
        if latency_micros < self.min_latency_micros {
            self.min_latency_micros = latency_micros;
        }
        if latency_micros > self.max_latency_micros {
            self.max_latency_micros = latency_micros;
        }
        proof {
            let h = old(self).history@;
            self.history@ = h.push(latency_micros);
            assert(self.history@.drop_last() =~= h);
        }
    }

    /// Copy out the counters. The average is the cumulative latency divided
    /// by the total (zero when nothing was recorded), and the minimum is
    /// reported as zero exactly when nothing was recorded yet, so the "no
    /// data" sentinel never leaks — even should a genuine record carry the
    /// sentinel value itself.
    pub fn get_snapshot(&self) -> (snapshot: MetricsSnapshot)
        requires
            self.wf(),
        ensures
            snapshot.total_requests == self.total(),
            snapshot.successful_requests == self.successful(),
            snapshot.failed_requests == self.failed(),
            snapshot.avg_latency_micros == (if self.total() > 0 {
                self.cumulative_latency() as int / self.total() as int
            } else {
                0int
            }),
            snapshot.min_latency_micros == (if self.total() == 0 {
                0int
            } else {
                self.min_latency() as int
            }),
            snapshot.max_latency_micros == self.max_latency(),
    {
        let avg_latency_micros = if self.total_requests > 0 {
            self.total_latency_micros / self.total_requests
        } else {
            0
        };
        let min_latency_micros = if self.total_requests == 0 {
            0
        } else {
            self.min_latency_micros
        };
        MetricsSnapshot {
            total_requests: self.total_requests,
            successful_requests: self.successful_requests,
            failed_requests: self.failed_requests,
            avg_latency_micros,
            min_latency_micros,
            max_latency_micros: self.max_latency_micros,
        }
    }

    /// The cumulative latency recorded so far, so a caller can test that
    /// one more record cannot overflow the sum before recording it.
    pub fn cumulative_latency_micros(&self) -> (sum: u64)
        ensures
            sum == self.cumulative_latency(),
    {
        self.total_latency_micros
    }

    /// Forget everything recorded so far.
    pub fn reset(&mut self)
        ensures
            final(self).wf(),
            final(self).history() == Seq::<u64>::empty(),
            final(self).total() == 0,
            final(self).min_latency() == u64::MAX,
            final(self).max_latency() == 0,
    {
        self.total_requests = 0;
        self.successful_requests = 0;
        self.failed_requests = 0;
        self.total_latency_micros = 0;
        self.min_latency_micros = u64::MAX;
        self.max_latency_micros = 0;
        proof {
            self.history@ = Seq::empty();
            assert(self.history() =~= Seq::<u64>::empty());
        }
    }
}

/// The minimum reported by a well-formed collector is the smallest latency
/// ever recorded (and is attained by one of them), however the recording
/// calls were interleaved; likewise the maximum is the largest.
pub proof fn lemma_extrema_are_attained(s: Seq<u64>)
    ensures
        forall|i: int| 0 <= i < s.len() ==> seq_min(s) <= #[trigger] s[i],
        forall|i: int| 0 <= i < s.len() ==> seq_max(s) >= #[trigger] s[i],
        s.len() > 0 ==> exists|i: int| 0 <= i < s.len() && s[i] == seq_min(s),
        s.len() > 0 ==> exists|i: int| 0 <= i < s.len() && s[i] == seq_max(s),
    decreases s.len(),
{
    if s.len() > 0 {
        lemma_extrema_are_attained(s.drop_last());
        assert(forall|i: int|
            0 <= i < s.len() - 1 ==> s.drop_last()[i] == #[trigger] s[i]);
        assert(s[s.len() - 1] == s.last());
        if s.len() > 1 {
            if seq_min(s) == seq_min(s.drop_last()) {
                let j = choose|j: int|
                    0 <= j < s.len() - 1 && s.drop_last()[j] == seq_min(s.drop_last());
                assert(s[j] == seq_min(s));
            }
            if seq_max(s) == seq_max(s.drop_last()) {
                let j = choose|j: int|
                    0 <= j < s.len() - 1 && s.drop_last()[j] == seq_max(s.drop_last());
                assert(s[j] == seq_max(s));
            }
        }
    }
}

/// The cumulative latency of a well-formed collector is the sum of every
/// latency recorded, so the average reported by a snapshot is the true mean.
pub proof fn lemma_sum_of_history(s: Seq<u64>, extra: u64)
    ensures
        seq_sum(s.push(extra)) == seq_sum(s) + extra,
{
    assert(s.push(extra).drop_last() =~= s);
}

} // verus!
