//! The dispatch loop's decision logic, as a state machine.
//!
//! The binary drives the loop: it acquires a permit from its concurrency
//! gate, launches one request task per `record_launch`, and feeds each
//! task's result back through `record_result`. The decisions — which of
//! the two terminal modes governs the run, whether another request may be
//! launched now, and when the run has drained — live here and are
//! verified. Launch issuance is sequential by design; only execution is
//! concurrent.

use vstd::prelude::*;
use crate::outcome::RequestResult;
use crate::stats::RunStats;

verus! {

/// The two terminal modes of a run: a fixed request count, or a fixed
/// wall-clock duration in seconds.
#[derive(PartialEq, Eq, Structural, Clone, Copy, Debug)]
pub enum Mode {
    Count(u64),
    TimeLimit(u64),
}

/// Mode selection is mutually exclusive: a configured duration wins and
/// the request count is then ignored entirely.
pub open spec fn spec_select_mode(requests: u64, timelimit_secs: Option<u64>) -> Mode {
    match timelimit_secs {
        Option::Some(t) => Mode::TimeLimit(t),
        Option::None => Mode::Count(requests),
    }
}

/// Pick the run's terminal mode from the configuration.
pub fn select_mode(requests: u64, timelimit_secs: Option<u64>) -> (m: Mode)
    ensures
        m == spec_select_mode(requests, timelimit_secs),
{
    match timelimit_secs {
        Some(t) => Mode::TimeLimit(t),
        None => Mode::Count(requests),
    }
}

/// Whether the dispatch loop still launches a new task: in count-bounded
/// mode while fewer than the configured number were launched, in
/// duration-bounded mode while the elapsed wall-clock time is under the
/// limit.
pub open spec fn wants_launch(m: Mode, launched: u64, elapsed_ns: u64) -> bool {
    match m {
        Mode::Count(n) => launched < n,
        Mode::TimeLimit(t) => (elapsed_ns as int) < t as int * 1_000_000_000,
    }
}

/// Whether the dispatch loop launches one more task, given how many were
/// launched so far and the elapsed wall-clock nanoseconds since run
/// start. This is the loop's continuation predicate in both modes.
pub fn should_launch_more(m: Mode, launched: u64, elapsed_ns: u64) -> (b: bool)
    ensures
        b == wants_launch(m, launched, elapsed_ns),
{
    match m {
        Mode::Count(n) => launched < n,
        Mode::TimeLimit(t) => (elapsed_ns as u128) < t as u128 * 1_000_000_000,
    }
}

/// The scheduling state of one run: how many tasks were launched, how
/// many have completed, and the statistics accumulated so far.
pub struct Dispatcher {
    pub mode: Mode,
    pub concurrency: u64,
    pub launched: u64,
    pub completed: u64,
    pub stats: RunStats,
}

impl Dispatcher {
    /// Requests currently in flight: launched and not yet completed.
    pub open spec fn in_flight(self) -> int {
        self.launched - self.completed
    }

    /// The dispatch invariant: a positive concurrency cap, no completion
    /// without a launch, every completion counted exactly once, and in
    /// count-bounded mode never more launches than the configured count.
    pub open spec fn wf(self) -> bool {
        &&& self.concurrency >= 1
        &&& self.completed <= self.launched
        &&& self.stats.wf()
        &&& self.stats.total_requests == self.completed
        &&& match self.mode {
            Mode::Count(n) => self.launched <= n,
            Mode::TimeLimit(_) => true,
        }
    }

    /// A fresh run: nothing launched, nothing completed.
    pub fn new(mode: Mode, concurrency: u64) -> (d: Dispatcher)
        requires
            concurrency >= 1,
        ensures
            d.wf(),
            d.mode == mode,
            d.concurrency == concurrency,
            d.launched == 0,
            d.completed == 0,
            d.stats.total_requests == 0,
            d.stats.successful_requests == 0,
            d.stats.failed_requests == 0,
            d.stats.response_times@ == Seq::<u64>::empty(),
            d.stats.total_duration_ns == 0,
    {
        Dispatcher { mode, concurrency, launched: 0, completed: 0, stats: RunStats::new() }
    }

    /// Whether the loop still launches a new task now, given the elapsed
    /// wall-clock nanoseconds since run start.
    pub fn should_launch(&self, elapsed_ns: u64) -> (b: bool)
        ensures
            b == wants_launch(self.mode, self.launched, elapsed_ns),
    {
        match self.mode {
            Mode::Count(n) => self.launched < n,
            Mode::TimeLimit(t) => (elapsed_ns as u128) < t as u128 * 1_000_000_000,
        }
    }

    /// Whether the concurrency gate has a free permit: fewer than the
    /// configured cap in flight.
    pub fn has_capacity(&self) -> (b: bool)
        requires
            self.wf(),
        ensures
            b == (self.in_flight() < self.concurrency),
    {
        self.launched - self.completed < self.concurrency
    }

    /// Count one launched task. The caller launches only behind a free
    /// permit and, in count-bounded mode, only below the configured count.
    pub fn record_launch(&mut self)
        requires
            old(self).wf(),
            old(self).in_flight() < old(self).concurrency,
            (match old(self).mode {
                Mode::Count(n) => old(self).launched < n,
                Mode::TimeLimit(_) => old(self).launched < u64::MAX,
            }),
        ensures
            final(self).wf(),
            final(self).launched == old(self).launched + 1,
            final(self).completed == old(self).completed,
            final(self).mode == old(self).mode,
            final(self).concurrency == old(self).concurrency,
            final(self).stats == old(self).stats,
            final(self).in_flight() == old(self).in_flight() + 1,
    {
        self.launched = self.launched + 1;
    }

    /// Feed one completed task's result into the statistics. Exactly one
    /// completion per launch; no result is lost or double-applied.
    pub fn record_result(&mut self, result: &RequestResult)
        requires
            old(self).wf(),
            old(self).completed < old(self).launched,
        ensures
            final(self).wf(),
            final(self).completed == old(self).completed + 1,
            final(self).launched == old(self).launched,
            final(self).mode == old(self).mode,
            final(self).concurrency == old(self).concurrency,
            final(self).in_flight() == old(self).in_flight() - 1,
            final(self).stats.total_requests == old(self).stats.total_requests + 1,
            final(self).stats.successful_requests == old(self).stats.successful_requests
                + if result.success {
                1int
            } else {
                0int
            },
            final(self).stats.failed_requests == old(self).stats.failed_requests
                + if result.success {
                0int
            } else {
                1int
            },
            final(self).stats.response_times@ == if result.success {
                old(self).stats.response_times@.push(result.duration_ns)
            } else {
                old(self).stats.response_times@
            },
            final(self).stats.total_duration_ns == old(self).stats.total_duration_ns,
    {
        self.completed = self.completed + 1;
        self.stats.add_result(result);
    }

    /// Whether every launched task has completed.
    pub fn drained(&self) -> (b: bool)
        ensures
            b == (self.completed == self.launched),
    {
        self.completed == self.launched
    }

    /// Finalize the drained run into its statistics, stamping the total
    /// wall-clock duration.
    pub fn into_stats(self, total_duration_ns: u64) -> (s: RunStats)
        requires
            self.wf(),
        ensures
            s.wf(),
            s == (RunStats { total_duration_ns, ..self.stats }),
    {
        let mut s = self.stats;
        s.set_total_duration(total_duration_ns);
        s
    }
}

/// Count-bounded exactness: a drained run in mode `Count(n)` whose loop
/// no longer wants a launch has dispatched exactly `n` requests — no
/// more, no fewer — and accounted for each exactly once.
pub proof fn lemma_count_mode_exact(d: Dispatcher, n: u64)
    requires
        d.wf(),
        d.mode == Mode::Count(n),
        d.completed == d.launched,
        !wants_launch(d.mode, d.launched, 0),
    ensures
        d.stats.total_requests == n,
        d.stats.successful_requests + d.stats.failed_requests == n,
{
}

/// How many of the first `k` tasks are still running at time `t`: their
/// completion lies after `t`.
pub open spec fn still_running(ct: Seq<int>, t: int, k: int) -> int
    decreases k,
{
    if k <= 0 {
        0
    } else {
        still_running(ct, t, k - 1) + if ct[k - 1] > t {
            1int
        } else {
            0int
        }
    }
}

proof fn lemma_still_running_range(ct: Seq<int>, t: int, m: int, k: int)
    requires
        0 <= m <= k,
        forall|i: int| m <= i < k ==> ct[i] > t,
    ensures
        still_running(ct, t, k) >= still_running(ct, t, m) + (k - m),
        still_running(ct, t, m) >= 0,
    decreases k - m,
{
    if m < k {
        lemma_still_running_range(ct, t, m, k - 1);
    } else {
        lemma_still_running_nonneg(ct, t, m);
    }
}

proof fn lemma_still_running_nonneg(ct: Seq<int>, t: int, k: int)
    ensures
        still_running(ct, t, k) >= 0,
    decreases k,
{
    if k > 0 {
        lemma_still_running_nonneg(ct, t, k - 1);
    }
}

/// A permit-gated schedule of `n` tasks: launches come in time order,
/// each task completes at least `latency` after its launch, and when a
/// task launches, fewer than `concurrency` earlier tasks are still
/// running.
pub open spec fn gated_schedule(lt: Seq<int>, ct: Seq<int>, concurrency: int, latency: int) -> bool {
    &&& lt.len() == ct.len()
    &&& forall|i: int, j: int| 0 <= i <= j < lt.len() ==> lt[i] <= lt[j]
    &&& forall|i: int| 0 <= i < ct.len() ==> ct[i] >= lt[i] + latency
    &&& forall|k: int|
        0 <= k < lt.len() ==> still_running(ct, #[trigger] lt[k], k) <= concurrency - 1
}

#[verifier::rlimit(60)]
proof fn lemma_launch_lower(lt: Seq<int>, ct: Seq<int>, c: int, l: int, k: int)
    requires
        gated_schedule(lt, ct, c, l),
        c >= 1,
        l >= 0,
        0 <= k < lt.len(),
    ensures
        lt[k] >= lt[0] + (k / c) * l,
    decreases k,
{
    if k < c {
        assert(k / c == 0) by {
            vstd::arithmetic::div_mod::lemma_fundamental_div_mod_converse(k, c, 0, k);
        }
    } else {
        // some task with index at least k - c has completed by lt[k]:
        // otherwise c tasks would still be running at the launch of k
        assert(exists|i: int| k - c <= i < k && ct[i] <= lt[k]) by {
            if forall|i: int| k - c <= i < k ==> ct[i] > lt[k] {
                lemma_still_running_range(ct, lt[k], k - c, k);
                assert(still_running(ct, lt[k], k) >= c);
            }
        }
        let i = choose|i: int| k - c <= i < k && ct[i] <= lt[k];
        assert(lt[k] >= ct[i] >= lt[i] + l);
        assert(lt[i] >= lt[k - c]);
        lemma_launch_lower(lt, ct, c, l, k - c);
        assert((k - c) / c == k / c - 1) by {
            vstd::arithmetic::div_mod::lemma_fundamental_div_mod(k, c);
            vstd::arithmetic::div_mod::lemma_mod_pos_bound(k, c);
            assert(k - c == (k / c - 1) * c + k % c) by (nonlinear_arith)
                requires
                    k == c * (k / c) + k % c,
            ;
            vstd::arithmetic::div_mod::lemma_fundamental_div_mod_converse(
                k - c,
                c,
                k / c - 1,
                k % c,
            );
        }
        assert((k / c - 1) * l + l == (k / c) * l) by (nonlinear_arith);
    }
}

/// Count-bounded serialization: under a permit-gated schedule of `n`
/// tasks at concurrency `c`, each taking at least `l`, the last launched
/// task completes no earlier than `ceil(n/c)` times `l` after the first
/// launch — the waves the permits force are sequential.
pub proof fn lemma_serialization_bound(lt: Seq<int>, ct: Seq<int>, c: int, l: int)
    requires
        gated_schedule(lt, ct, c, l),
        c >= 1,
        l >= 0,
        lt.len() >= 1,
    ensures
        ct[lt.len() - 1] >= lt[0] + ((lt.len() + c - 1) / c) * l,
{
    let n = lt.len() as int;
    lemma_launch_lower(lt, ct, c, l, n - 1);
    assert(ct[n - 1] >= lt[n - 1] + l);
    // ceil(n/c) == (n-1)/c + 1
    assert((n + c - 1) / c == (n - 1) / c + 1) by {
        vstd::arithmetic::div_mod::lemma_fundamental_div_mod(n - 1, c);
        vstd::arithmetic::div_mod::lemma_mod_pos_bound(n - 1, c);
        assert(n + c - 1 == ((n - 1) / c + 1) * c + (n - 1) % c) by (nonlinear_arith)
            requires
                n - 1 == c * ((n - 1) / c) + (n - 1) % c,
        ;
        vstd::arithmetic::div_mod::lemma_fundamental_div_mod_converse(
            n + c - 1,
            c,
            (n - 1) / c + 1,
            (n - 1) % c,
        );
    }
    assert(((n - 1) / c) * l + l == ((n - 1) / c + 1) * l) by (nonlinear_arith);
}

/// Past its deadline, a duration-bounded run launches nothing more: the
/// loop goes on only while the elapsed time is under the limit, so the
/// run's total duration is at least the configured limit.
pub proof fn lemma_deadline_respected(t: u64, launched: u64, elapsed_ns: u64)
    requires
        !wants_launch(Mode::TimeLimit(t), launched, elapsed_ns),
    ensures
        elapsed_ns >= t * 1_000_000_000,
{
}

/// The realized request count never exceeds the number of launches, in
/// either mode: once the deadline of a duration-bounded run has passed,
/// no new task is launched, and at most the tasks already in flight —
/// never more than the concurrency cap — still add results.
pub proof fn lemma_results_bounded(d: Dispatcher)
    requires
        d.wf(),
    ensures
        d.stats.total_requests <= d.launched,
        d.in_flight() <= d.concurrency ==> d.stats.total_requests >= d.launched - d.concurrency,
{
}

} // verus!
