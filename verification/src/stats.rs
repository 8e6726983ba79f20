//! The result collector: run statistics accumulated one result at a time.
//!
//! A `RunStats` is created empty at run start, receives every
//! `RequestResult` exactly once through `add_result`, is finalized by
//! setting the total wall-clock duration when the run loop exits, and is
//! then reduced into a report. The accounting invariant — every dispatched
//! request is counted exactly once, and exactly the successful ones
//! contribute a latency sample — is part of the type's well-formedness.

use vstd::prelude::*;
use crate::outcome::RequestResult;

verus! {

/// Number of successful results in a sequence of result records.
pub open spec fn ok_count(s: Seq<RequestResult>) -> nat
    decreases s.len(),
{
    if s.len() == 0 {
        0
    } else {
        ok_count(s.drop_last()) + if s.last().success {
            1nat
        } else {
            0nat
        }
    }
}

/// The latency samples of the successful results, in collection order.
pub open spec fn ok_durations(s: Seq<RequestResult>) -> Seq<u64>
    decreases s.len(),
{
    if s.len() == 0 {
        Seq::empty()
    } else {
        ok_durations(s.drop_last()) + if s.last().success {
            seq![s.last().duration_ns]
        } else {
            Seq::empty()
        }
    }
}

/// Aggregate statistics of one run. Durations are nanoseconds.
pub struct RunStats {
    pub total_requests: u64,
    pub successful_requests: u64,
    pub failed_requests: u64,
    pub total_duration_ns: u64,
    pub response_times: Vec<u64>,
}

impl RunStats {
    /// The accounting invariant: every added result is counted exactly
    /// once, and the latency samples are exactly those of the successes.
    pub open spec fn wf(self) -> bool {
        &&& self.total_requests == self.successful_requests + self.failed_requests
        &&& self.response_times@.len() == self.successful_requests
    }

    /// Empty statistics, as they stand at run start.
    pub fn new() -> (s: RunStats)
        ensures
            s.wf(),
            s.total_requests == 0,
            s.successful_requests == 0,
            s.failed_requests == 0,
            s.total_duration_ns == 0,
            s.response_times@ == Seq::<u64>::empty(),
    {
        RunStats {
            total_requests: 0,
            successful_requests: 0,
            failed_requests: 0,
            total_duration_ns: 0,
            response_times: Vec::new(),
        }
    }

    /// Fold one result into the totals: the total always advances by one,
    /// a success also contributes its latency sample, a failure only the
    /// failure count. No result is lost or double-applied.
    pub fn add_result(&mut self, result: &RequestResult)
        requires
            old(self).wf(),
            old(self).total_requests < u64::MAX,
        ensures
            final(self).wf(),
            final(self).total_requests == old(self).total_requests + 1,
            final(self).successful_requests == old(self).successful_requests + if result.success {
                1int
            } else {
                0int
            },
            final(self).failed_requests == old(self).failed_requests + if result.success {
                0int
            } else {
                1int
            },
            final(self).response_times@ == if result.success {
                old(self).response_times@.push(result.duration_ns)
            } else {
                old(self).response_times@
            },
            final(self).total_duration_ns == old(self).total_duration_ns,
    {
        self.total_requests = self.total_requests + 1;
        if result.success {
            self.successful_requests = self.successful_requests + 1;
            self.response_times.push(result.duration_ns);
        } else {
            self.failed_requests = self.failed_requests + 1;
        }
    }

    /// Finalize the run by recording its total wall-clock duration.
    pub fn set_total_duration(&mut self, duration_ns: u64)
        ensures
            *final(self) == (RunStats { total_duration_ns: duration_ns, ..*old(self) }),
    {
        self.total_duration_ns = duration_ns;
    }

    /// Collect a whole run's results at once: the statistics of a result
    /// sequence. Exactly one count per record, samples from the successes
    /// alone, in order.
    pub fn from_results(results: &Vec<RequestResult>, total_duration_ns: u64) -> (s: RunStats)
        ensures
            s.wf(),
            s.total_requests == results@.len(),
            s.successful_requests == ok_count(results@),
            s.failed_requests == results@.len() - ok_count(results@),
            s.response_times@ == ok_durations(results@),
            s.total_duration_ns == total_duration_ns,
    {
        let mut s = RunStats::new();
        let n = results.len();
        let mut i: usize = 0;
        while i < n
            invariant
                i <= n,
                n == results@.len(),
                s.wf(),
                s.total_requests == i,
                s.successful_requests == ok_count(results@.take(i as int)),
                s.failed_requests == i - ok_count(results@.take(i as int)),
                s.response_times@ == ok_durations(results@.take(i as int)),
                s.total_duration_ns == 0,
            decreases n - i,
        {
            proof {
                lemma_ok_prefix(results@, i as int);
                assert(ok_count(results@.take(i as int)) <= i) by {
                    lemma_ok_count_le_len(results@.take(i as int));
                }
            }
            s.add_result(&results[i]);
            i = i + 1;
        }
        proof {
            assert(results@.take(n as int) =~= results@);
        }
        s.set_total_duration(total_duration_ns);
        s
    }
}

/// At most every record of a sequence is a success.
pub proof fn lemma_ok_count_le_len(s: Seq<RequestResult>)
    ensures
        ok_count(s) <= s.len(),
    decreases s.len(),
{
    if s.len() > 0 {
        lemma_ok_count_le_len(s.drop_last());
    }
}

/// Extending a prefix by one record extends its counts by that record.
proof fn lemma_ok_prefix(s: Seq<RequestResult>, i: int)
    requires
        0 <= i < s.len(),
    ensures
        ok_count(s.take(i + 1)) == ok_count(s.take(i)) + if s[i].success {
            1int
        } else {
            0int
        },
        ok_durations(s.take(i + 1)) == if s[i].success {
            ok_durations(s.take(i)).push(s[i].duration_ns)
        } else {
            ok_durations(s.take(i))
        },
{
    assert(s.take(i + 1).drop_last() =~= s.take(i));
    assert(s.take(i + 1).last() == s[i]);
    if s[i].success {
        assert(ok_durations(s.take(i)) + seq![s[i].duration_ns] =~= ok_durations(
            s.take(i),
        ).push(s[i].duration_ns));
    } else {
        assert(ok_durations(s.take(i)) + Seq::<u64>::empty() =~= ok_durations(s.take(i)));
    }
}

/// Against an always-succeeding endpoint every dispatched request counts
/// as a success and contributes its latency sample.
pub proof fn lemma_all_success(s: Seq<RequestResult>)
    requires
        forall|i: int| 0 <= i < s.len() ==> s[i].success,
    ensures
        ok_count(s) == s.len(),
        ok_durations(s).len() == s.len(),
    decreases s.len(),
{
    if s.len() > 0 {
        lemma_all_success(s.drop_last());
    }
}

/// Against an unreachable endpoint no request succeeds and no latency
/// sample is collected.
pub proof fn lemma_all_failed(s: Seq<RequestResult>)
    requires
        forall|i: int| 0 <= i < s.len() ==> !s[i].success,
    ensures
        ok_count(s) == 0,
        ok_durations(s) == Seq::<u64>::empty(),
    decreases s.len(),
{
    if s.len() > 0 {
        lemma_all_failed(s.drop_last());
        assert(ok_durations(s.drop_last()) + Seq::<u64>::empty() =~= ok_durations(s.drop_last()));
    }
}

/// The accounting law of every well-formed `RunStats`: the total is the
/// sum of successes and failures, and the number of latency samples is
/// the number of successes.
pub proof fn lemma_stats_accounting(s: &RunStats)
    requires
        s.wf(),
    ensures
        s.total_requests == s.successful_requests + s.failed_requests,
        s.response_times@.len() == s.successful_requests,
{
}

} // verus!
