//! Latency statistics over one window of samples.
//!
//! Samples are whole milliseconds. Every derived figure is kept exact: a
//! percentile is a count of hundredths of a millisecond, a mean and a success
//! rate are quotients.
use vstd::prelude::*;
use vstd::relations::{sorted_by, total_ordering};
use vstd::seq_lib::lemma_sorted_unique;

verus! {

/// The exact quotient `num / den`. A zero denominator marks a figure that has
/// no value (the mean of no samples).
#[derive(Clone, Copy, Debug, PartialEq, Eq, Structural)]
pub struct Ratio {
    pub num: u128,
    pub den: u128,
}

/// Summary of one window of probe results.
#[derive(Clone, Copy, Debug, PartialEq, Eq, Structural)]
pub struct Statistics {
    /// Sum of the samples over their number.
    pub mean: Ratio,
    pub median: Ratio,
    /// Smallest sample, 0 when there is none.
    pub min: u64,
    /// Largest sample, 0 when there is none.
    pub max: u64,
    pub p25: Ratio,
    pub p75: Ratio,
    pub p90: Ratio,
    pub p95: Ratio,
    pub p99: Ratio,
    /// Samples over attempts, in percent.
    pub success_rate: Ratio,
    /// Attempts in the window, failed ones included.
    pub total_count: usize,
}

/// Ascending order on samples.
pub open spec fn ascending() -> spec_fn(u64, u64) -> bool {
    |a: u64, b: u64| a <= b
}

/// The samples in ascending order.
pub open spec fn sorted_samples(s: Seq<u64>) -> Seq<u64> {
    s.sort_by(ascending())
}

pub open spec fn seq_sum(s: Seq<u64>) -> int
    decreases s.len(),
{
    if s.len() == 0 {
        0
    } else {
        seq_sum(s.drop_last()) + s.last()
    }
}

/// Percentile `p` of the sorted samples `s`, in hundredths: the position
/// `p * (n - 1) / 100` is read off `s`, between two neighbours by linear
/// interpolation on its fractional part. No samples give 0.
pub open spec fn percentile_centi(s: Seq<u64>, p: int) -> int {
    if s.len() == 0 {
        0
    } else {
        let pos = p * (s.len() - 1);
        let lo = pos / 100;
        let frac = pos % 100;
        if frac == 0 {
            100 * s[lo]
        } else {
            s[lo] * (100 - frac) + s[lo + 1] * frac
        }
    }
}

/// Percentile `p` of `s`, as an exact quotient.
pub open spec fn percentile_ratio(s: Seq<u64>, p: int) -> Ratio {
    Ratio { num: percentile_centi(s, p) as u128, den: 100 }
}

/// `st` summarises the samples `values` taken out of `total` attempts.
pub open spec fn is_statistics_of(st: Statistics, values: Seq<u64>, total: int) -> bool {
    let s = sorted_samples(values);
    &&& st.mean == (Ratio { num: seq_sum(values) as u128, den: values.len() as u128 })
    &&& st.median == percentile_ratio(s, 50)
    &&& st.p25 == percentile_ratio(s, 25)
    &&& st.p75 == percentile_ratio(s, 75)
    &&& st.p90 == percentile_ratio(s, 90)
    &&& st.p95 == percentile_ratio(s, 95)
    &&& st.p99 == percentile_ratio(s, 99)
    &&& st.min == (if s.len() == 0 { 0 } else { s[0] })
    &&& st.max == (if s.len() == 0 { 0 } else { s.last() })
    &&& st.success_rate == (Ratio { num: (100 * values.len()) as u128, den: total as u128 })
    &&& st.total_count == total
}

pub proof fn lemma_ascending_total()
    ensures
        total_ordering(ascending()),
{
}

/// Sorting keeps the samples and puts them in ascending order.
pub proof fn lemma_sorted_samples(s: Seq<u64>)
    ensures
        sorted_by(sorted_samples(s), ascending()),
        sorted_samples(s).to_multiset() == s.to_multiset(),
        sorted_samples(s).len() == s.len(),
{
    lemma_ascending_total();
    s.lemma_sort_by_ensures(ascending());
    s.to_multiset_ensures();
    sorted_samples(s).to_multiset_ensures();
}

/// Any ascending arrangement of the samples is their sorted form.
pub proof fn lemma_sorted_is_unique(s: Seq<u64>, t: Seq<u64>)
    requires
        sorted_by(t, ascending()),
        t.to_multiset() == s.to_multiset(),
    ensures
        t == sorted_samples(s),
{
    lemma_ascending_total();
    lemma_sorted_samples(s);
    lemma_sorted_unique(t, sorted_samples(s), ascending());
}

/// The sum of `n` samples is at most `n` times the largest `u64`.
pub proof fn lemma_sum_bound(s: Seq<u64>)
    ensures
        0 <= seq_sum(s) <= s.len() * (u64::MAX as int),
    decreases s.len(),
{
    if s.len() > 0 {
        lemma_sum_bound(s.drop_last());
    }
}

/// A single sample is each of its own percentiles, and no samples give 0,
/// whatever the percentile asked for.
pub proof fn lemma_degenerate_percentile(x: u64, p: int)
    requires
        0 <= p <= 100,
    ensures
        percentile_centi(seq![x], p) == 100 * x,
        percentile_centi(Seq::empty(), p) == 0,
{
}

/// Percentile `p` (0 to 100) of samples sorted ascending, with linear
/// interpolation between neighbours. The result is in hundredths of the
/// samples' unit, over a denominator of 100.
pub fn percentile(sorted_values: &[u64], p: u64) -> (r: Ratio)
    requires
        p <= 100,
    ensures
        r == percentile_ratio(sorted_values@, p as int),
{
    let n = sorted_values.len();
    if n == 0 {
        return Ratio { num: 0, den: 100 };
    }
    if n == 1 {
        let only = sorted_values[0] as u128;
        return Ratio { num: 100 * only, den: 100 };
    }
    assert((p as int) * ((n - 1) as int) <= 100 * (u64::MAX as int)) by (nonlinear_arith)
        requires
            p <= 100,
            n - 1 <= usize::MAX <= u64::MAX,
    ;
    let pos: u128 = (p as u128) * ((n - 1) as u128);
    let lo: u128 = pos / 100;
    let frac: u128 = pos % 100;
    assert(lo <= n - 1) by (nonlinear_arith)
        requires
            pos == p * (n - 1),
            lo == pos / 100,
            p <= 100,
            n >= 2,
    ;
    assert(frac != 0 ==> lo < n - 1) by (nonlinear_arith)
        requires
            pos == p * (n - 1),
            lo == pos / 100,
            frac == pos % 100,
            p <= 100,
            n >= 2,
    ;
    let lo_i = lo as usize;
    let low = sorted_values[lo_i] as u128;
    if frac == 0 {
        Ratio { num: 100 * low, den: 100 }
    } else {
        let high = sorted_values[lo_i + 1] as u128;
        assert(low * (100 - frac) + high * frac <= 100 * (u64::MAX as int)) by (nonlinear_arith)
            requires
                low <= u64::MAX,
                high <= u64::MAX,
                0 < frac < 100,
        ;
        Ratio { num: low * (100 - frac) + high * frac, den: 100 }
    }
}

/// Relies on slice::sort_unstable: afterwards the elements are in ascending
/// order, and they are the elements that were there before.
#[verifier::external_body]
fn sort_ascending(v: &mut Vec<u64>)
    ensures
        sorted_by(final(v)@, ascending()),
        final(v)@.to_multiset() == old(v)@.to_multiset(),
{
    v.sort_unstable();
}

fn sum_of(values: &[u64]) -> (r: u128)
    ensures
        r == seq_sum(values@),
{
    let mut acc: u128 = 0;
    let mut i: usize = 0;
    while i < values.len()
        invariant
            i <= values@.len(),
            acc == seq_sum(values@.take(i as int)),
        decreases values.len() - i,
    {
        proof {
            assert(values@.take(i as int + 1).drop_last() == values@.take(i as int));
            lemma_sum_bound(values@.take(i as int + 1));
            assert(values@.len() <= usize::MAX);
            assert((i as int + 1) * (u64::MAX as int) < u128::MAX) by (nonlinear_arith)
                requires
                    i < usize::MAX,
                    usize::MAX <= u64::MAX,
            ;
        }
        acc = acc + values[i] as u128;
        i = i + 1;
    }
    assert(values@.take(values@.len() as int) == values@);
    acc
}

/// Summary of the samples `values` (the successful probes of a window) out of
/// `total_count` attempts.
pub fn calculate_statistics(values: &[u64], total_count: usize) -> (st: Statistics)
    ensures
        is_statistics_of(st, values@, total_count as int),
{
    let mut sorted: Vec<u64> = Vec::new();
    let mut i: usize = 0;
    while i < values.len()
        invariant
            i <= values@.len(),
            sorted@ == values@.take(i as int),
        decreases values.len() - i,
    {
        sorted.push(values[i]);
        i = i + 1;
    }
    assert(values@.take(values@.len() as int) == values@);
    sort_ascending(&mut sorted);
    proof {
        lemma_sorted_is_unique(values@, sorted@);
        lemma_sorted_samples(values@);
        lemma_sum_bound(values@);
        assert(values@.len() * (u64::MAX as int) < u128::MAX) by (nonlinear_arith)
            requires
                values@.len() <= usize::MAX,
                usize::MAX <= u64::MAX,
        ;
    }
    let n = values.len();
    let sum = sum_of(values);
    let min = if n == 0 { 0 } else { sorted[0] };
    let max = if n == 0 { 0 } else { sorted[n - 1] };
    let s = sorted.as_slice();
    Statistics {
        mean: Ratio { num: sum, den: n as u128 },
        median: percentile(s, 50),
        min,
        max,
        p25: percentile(s, 25),
        p75: percentile(s, 75),
        p90: percentile(s, 90),
        p95: percentile(s, 95),
        p99: percentile(s, 99),
        success_rate: Ratio { num: 100 * (n as u128), den: total_count as u128 },
        total_count,
    }
}

} // verus!
