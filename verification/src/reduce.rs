//! The statistics reducer: sorting, percentiles, and sample summaries.
//!
//! Percentile rank follows the ceiling formula: for a target percentile
//! `p` in (0, 100] over `n` samples, the rank is `ceil(p*n/100) - 1`,
//! clamped to `[0, n-1]`, taken in the ascending order of the samples.
//! An empty sample set reduces to zero for every statistic.

use vstd::prelude::*;
use vstd::relations::{sorted_by, total_ordering};
use vstd::seq_lib::lemma_sorted_unique;
use crate::stats::RunStats;

verus! {

/// The ascending order on latency samples.
pub open spec fn le64() -> spec_fn(u64, u64) -> bool {
    |x: u64, y: u64| x <= y
}

/// The latency sample set in ascending order.
pub open spec fn sorted_of(s: Seq<u64>) -> Seq<u64> {
    s.sort_by(le64())
}

/// Rank of percentile `p` in a sample set of size `n >= 1`:
/// `ceil(p*n/100) - 1`, clamped to `[0, n-1]`.
pub open spec fn pct_index(p: int, n: int) -> int {
    let k = (p * n + 99) / 100 - 1;
    if k > n - 1 {
        n - 1
    } else {
        k
    }
}

/// The `p`-th percentile of a sample set: the element at the percentile
/// rank in ascending order, or zero if the set is empty.
pub open spec fn percentile_of(s: Seq<u64>, p: int) -> u64 {
    if s.len() == 0 {
        0
    } else {
        sorted_of(s)[pct_index(p, s.len() as int)]
    }
}

/// Sum of a sample set.
pub open spec fn sum_of(s: Seq<u64>) -> int
    decreases s.len(),
{
    if s.len() == 0 {
        0
    } else {
        sum_of(s.drop_last()) + s.last()
    }
}

/// Least element of a non-empty sample set.
pub open spec fn min_of(s: Seq<u64>) -> u64
    decreases s.len(),
{
    if s.len() <= 1 {
        s[0]
    } else if s.last() < min_of(s.drop_last()) {
        s.last()
    } else {
        min_of(s.drop_last())
    }
}

/// Greatest element of a non-empty sample set.
pub open spec fn max_of(s: Seq<u64>) -> u64
    decreases s.len(),
{
    if s.len() <= 1 {
        s[0]
    } else if s.last() > max_of(s.drop_last()) {
        s.last()
    } else {
        max_of(s.drop_last())
    }
}

/// Mean of a sample set, rounded down; zero when empty.
pub open spec fn avg_of(s: Seq<u64>) -> int {
    if s.len() == 0 {
        0
    } else {
        sum_of(s) / s.len() as int
    }
}

/// Least sample, or zero when the set is empty.
pub open spec fn min_or_zero(s: Seq<u64>) -> u64 {
    if s.len() == 0 {
        0
    } else {
        min_of(s)
    }
}

/// Greatest sample, or zero when the set is empty.
pub open spec fn max_or_zero(s: Seq<u64>) -> u64 {
    if s.len() == 0 {
        0
    } else {
        max_of(s)
    }
}

/// Success rate in basis points (hundredths of a percent), rounded down;
/// zero when no request was dispatched.
pub open spec fn rate_bp(ok: int, total: int) -> int {
    if total == 0 {
        0
    } else {
        ok * 10000 / total
    }
}

/// Throughput in thousandths of a successful request per second of run
/// time, rounded down and saturating; zero when the run took no time.
pub open spec fn qps_milli(ok: int, duration_ns: int) -> int {
    if duration_ns == 0 {
        0
    } else if ok * 1_000_000_000_000 / duration_ns > 0xFFFF_FFFF_FFFF_FFFFu64 {
        0xFFFF_FFFF_FFFF_FFFFu64 as int
    } else {
        ok * 1_000_000_000_000 / duration_ns
    }
}

proof fn lemma_le64_total()
    ensures
        total_ordering(le64()),
{
}

/// The sorted reordering keeps the length and the multiset of samples.
pub proof fn lemma_sorted_of_ensures(s: Seq<u64>)
    ensures
        sorted_of(s).len() == s.len(),
        sorted_by(sorted_of(s), le64()),
        sorted_of(s).to_multiset() == s.to_multiset(),
{
    broadcast use vstd::seq_lib::group_to_multiset_ensures;

    s.lemma_sort_by_ensures(le64());
    assert(s.to_multiset().len() == s.len());
    assert(sorted_of(s).to_multiset().len() == sorted_of(s).len());
}

/// A sorted copy of the samples: ascending order, same multiset.
pub fn sorted_copy(v: &Vec<u64>) -> (r: Vec<u64>)
    ensures
        r@ == sorted_of(v@),
        sorted_by(r@, le64()),
        r@.to_multiset() == v@.to_multiset(),
        r@.len() == v@.len(),
{
    broadcast use vstd::seq_lib::group_to_multiset_ensures;
    broadcast use vstd::seq_lib::to_multiset_insert;

    let mut r: Vec<u64> = Vec::new();
    let n = v.len();
    let mut i: usize = 0;
    while i < n
        invariant
            i <= n,
            n == v@.len(),
            r@.len() == i,
            sorted_by(r@, le64()),
            r@.to_multiset() == v@.take(i as int).to_multiset(),
        decreases n - i,
    {
        let x = v[i];
        let mut j: usize = 0;
        while j < r.len() && r[j] <= x
            invariant
                j <= r@.len(),
                forall|k: int| 0 <= k < j ==> r@[k] <= x,
            decreases r@.len() - j,
        {
            j = j + 1;
        }
        let ghost old_r = r@;
        r.insert(j, x);
        proof {
            old_r.insert_ensures(j as int, x);
            assert(r@ == old_r.insert(j as int, x));
            vstd::seq_lib::to_multiset_insert(old_r, j as int, x);
            assert(v@.take(i as int + 1) =~= v@.take(i as int).push(x)) by {
                assert(forall|k: int|
                    0 <= k < i + 1 ==> v@.take(i as int + 1)[k] == v@[k]);
                assert(forall|k: int| 0 <= k < i ==> v@.take(i as int)[k] == v@[k]);
            }
            vstd::seq_lib::to_multiset_build(v@.take(i as int), x);
            assert(r@.to_multiset() =~= v@.take(i as int + 1).to_multiset());
            assert forall|a: int, b: int| 0 <= a < b < r@.len() implies le64()(r@[a], r@[b]) by {
                if b > j {
                    assert(r@[b] == old_r[b - 1]);
                    if a < j {
                        assert(r@[a] == old_r[a]);
                        if a < b - 1 {
                            assert(le64()(old_r[a], old_r[b - 1]));
                        }
                    } else if a == j {
                        assert(r@[a] == x);
                        if j < old_r.len() {
                            assert(x <= old_r[j as int]);
                            if j < b - 1 {
                                assert(le64()(old_r[j as int], old_r[b - 1]));
                            }
                        }
                    } else {
                        assert(r@[a] == old_r[a - 1]);
                        if a - 1 < b - 1 {
                            assert(le64()(old_r[a - 1], old_r[b - 1]));
                        }
                    }
                }
            }
        }
        i = i + 1;
    }
    proof {
        assert(v@.take(n as int) =~= v@);
        lemma_le64_total();
        v@.lemma_sort_by_ensures(le64());
        lemma_sorted_unique(r@, v@.sort_by(le64()), le64());
        assert(r@ =~= sorted_of(v@));
    }
    r
}

/// A sample sum is bounded by the count of samples times the largest
/// representable sample.
pub proof fn lemma_sum_bound(s: Seq<u64>)
    ensures
        0 <= sum_of(s) <= s.len() * 0xFFFF_FFFF_FFFF_FFFFu64,
    decreases s.len(),
{
    if s.len() > 0 {
        lemma_sum_bound(s.drop_last());
    }
}

/// Sum of all latency samples, wide enough never to overflow.
pub fn sum_samples(v: &Vec<u64>) -> (s: u128)
    ensures
        s == sum_of(v@),
{
    let n = v.len();
    let mut s: u128 = 0;
    let mut i: usize = 0;
    while i < n
        invariant
            i <= n,
            n == v@.len(),
            s == sum_of(v@.take(i as int)),
        decreases n - i,
    {
        proof {
            assert(v@.take(i as int + 1).drop_last() =~= v@.take(i as int));
            lemma_sum_bound(v@.take(i as int));
        }
        s = s + v[i] as u128;
        i = i + 1;
    }
    proof {
        assert(v@.take(n as int) =~= v@);
    }
    s
}

/// Least latency sample of a non-empty sample set.
pub fn min_samples(v: &Vec<u64>) -> (m: u64)
    requires
        v@.len() > 0,
    ensures
        m == min_of(v@),
{
    let n = v.len();
    let mut m: u64 = v[0];
    let mut i: usize = 1;
    while i < n
        invariant
            1 <= i <= n,
            n == v@.len(),
            m == min_of(v@.take(i as int)),
        decreases n - i,
    {
        proof {
            assert(v@.take(i as int + 1).drop_last() =~= v@.take(i as int));
        }
        if v[i] < m {
            m = v[i];
        }
        i = i + 1;
    }
    proof {
        assert(v@.take(n as int) =~= v@);
    }
    m
}

/// Greatest latency sample of a non-empty sample set.
pub fn max_samples(v: &Vec<u64>) -> (m: u64)
    requires
        v@.len() > 0,
    ensures
        m == max_of(v@),
{
    let n = v.len();
    let mut m: u64 = v[0];
    let mut i: usize = 1;
    while i < n
        invariant
            1 <= i <= n,
            n == v@.len(),
            m == max_of(v@.take(i as int)),
        decreases n - i,
    {
        proof {
            assert(v@.take(i as int + 1).drop_last() =~= v@.take(i as int));
        }
        if v[i] > m {
            m = v[i];
        }
        i = i + 1;
    }
    proof {
        assert(v@.take(n as int) =~= v@);
    }
    m
}

impl RunStats {
    /// The percentile of the collected latency samples, for a target
    /// percentile in (0, 100]; zero when no request succeeded.
    pub fn calculate_percentile(&self, percentile: u64) -> (d: u64)
        requires
            0 < percentile <= 100,
        ensures
            d == percentile_of(self.response_times@, percentile as int),
    {
        let n = self.response_times.len();
        if n == 0 {
            return 0;
        }
        let sorted = sorted_copy(&self.response_times);
        proof {
            assert(percentile as int * n as int >= 1) by (nonlinear_arith)
                requires
                    percentile >= 1,
                    n >= 1,
            ;
            assert(percentile as int * n as int <= 100 * 0xFFFF_FFFF_FFFF_FFFFu64)
                by (nonlinear_arith)
                requires
                    1 <= percentile <= 100,
                    n <= 0xFFFF_FFFF_FFFF_FFFFu64,
            ;
        }
        let num: u128 = percentile as u128 * n as u128 + 99;
        let k: u128 = num / 100 - 1;
        let idx: usize = if k > (n - 1) as u128 {
            n - 1
        } else {
            k as usize
        };
        assert(idx == pct_index(percentile as int, n as int));
        sorted[idx]
    }
}

/// Every element of a non-empty sample set lies between its least and
/// greatest elements.
pub proof fn lemma_min_max_bound(s: Seq<u64>, i: int)
    requires
        0 <= i < s.len(),
    ensures
        min_of(s) <= s[i] <= max_of(s),
    decreases s.len(),
{
    if s.len() > 1 {
        if i < s.len() - 1 {
            lemma_min_max_bound(s.drop_last(), i);
        }
    }
}

/// A sorted reordering keeps the elements, so each of its entries lies
/// between the least and greatest of the samples themselves.
proof fn lemma_sorted_entry_bounded(s: Seq<u64>, i: int)
    requires
        s.len() > 0,
        0 <= i < s.len(),
    ensures
        min_of(s) <= sorted_of(s)[i] <= max_of(s),
{
    broadcast use vstd::seq_lib::group_to_multiset_ensures;

    lemma_sorted_of_ensures(s);
    let t = sorted_of(s);
    assert(t.contains(t[i]));
    assert(t.to_multiset().contains(t[i]));
    assert(s.to_multiset().contains(t[i]));
    assert(s.contains(t[i]));
    let w = choose|w: int| 0 <= w < s.len() && s[w] == t[i];
    lemma_min_max_bound(s, w);
}

/// Percentile monotonicity: a higher target percentile never yields a
/// smaller latency value.
pub proof fn lemma_percentile_monotone(s: Seq<u64>, p1: int, p2: int)
    requires
        0 < p1 <= p2 <= 100,
    ensures
        percentile_of(s, p1) <= percentile_of(s, p2),
{
    if s.len() > 0 {
        let n = s.len() as int;
        assert(p1 * n <= p2 * n) by (nonlinear_arith)
            requires
                0 < p1 <= p2,
                n > 0,
        ;
        assert(p1 * n >= 1) by (nonlinear_arith)
            requires
                p1 >= 1,
                n >= 1,
        ;
        let i1 = pct_index(p1, n);
        let i2 = pct_index(p2, n);
        assert((p1 * n + 99) / 100 <= (p2 * n + 99) / 100) by (nonlinear_arith)
            requires
                p1 * n <= p2 * n,
        ;
        assert(0 <= i1 <= i2 < n);
        lemma_sorted_of_ensures(s);
        if i1 < i2 {
            assert(le64()(sorted_of(s)[i1], sorted_of(s)[i2]));
        }
    }
}

/// Every percentile of a non-empty sample set lies between the least and
/// the greatest sample.
pub proof fn lemma_percentile_bounds(s: Seq<u64>, p: int)
    requires
        0 < p <= 100,
        s.len() > 0,
    ensures
        min_of(s) <= percentile_of(s, p) <= max_of(s),
{
    let n = s.len() as int;
    assert(p * n >= 1) by (nonlinear_arith)
        requires
            p >= 1,
            n >= 1,
    ;
    assert(p * n <= 100 * n) by (nonlinear_arith)
        requires
            p <= 100,
            n > 0,
    ;
    lemma_sorted_entry_bounded(s, pct_index(p, n));
}

} // verus!
